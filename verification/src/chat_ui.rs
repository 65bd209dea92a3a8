//! The chat surface: a renderer-neutral node tree built from the
//! conversation view one principal gets.

use vstd::prelude::*;

use crate::chat::ContentBlock;
use crate::chat_view::ChatConversationView;
use crate::text::{byte_len, chars_of, decimal, is_blank, str_byte_len, str_is_blank, u64_text};

verus! {

/// The chat surface.
pub const CHAT_SURFACE_ID: &'static str = "rintawa.chat.main";
/// The chat activity in the shell.
pub const CHAT_ACTIVITY_ID: &'static str = "rintawa.chat";
/// Asks for a fresh projection.
pub const CHAT_ACTION_REFRESH: &'static str = "rintawa.chat.refresh";
/// Creates a conversation with a participant for the local user.
pub const CHAT_ACTION_CREATE_CONVERSATION: &'static str = "rintawa.chat.create-conversation-ui";
/// Selects the conversation of the acting node.
pub const CHAT_ACTION_SELECT_CONVERSATION: &'static str = "rintawa.chat.select-conversation-ui";
/// Selects the branch leaf of the acting node.
pub const CHAT_ACTION_SELECT_BRANCH: &'static str = "rintawa.chat.select-branch-ui";
/// Sends the composer's text.
pub const CHAT_ACTION_SEND: &'static str = "rintawa.chat.send";
/// Longest text shown in one node, in UTF-8 bytes.
pub const MAX_PRESENTATION_TEXT_BYTES: usize = 16384;

/// How a button is drawn.
#[derive(Debug, Clone, Copy, PartialEq, Eq, Structural)]
pub enum ChatButtonAppearance {
    Default,
    Primary,
    Subtle,
}

/// What a node is.
#[derive(Debug)]
pub enum ChatNodeKind {
    Column { children: Vec<String> },
    Row { children: Vec<String> },
    List { children: Vec<String> },
    Text { text: String },
    Markdown { source: String },
    Button { label: String, action: String, enabled: bool, appearance: ChatButtonAppearance },
    TextArea { value: String, placeholder: Option<String>, submit_action: Option<String>, enabled: bool },
}

/// One node: its identifier, what it is, and its semantic role (version 1),
/// if any.
#[derive(Debug)]
pub struct ChatNode {
    pub id: String,
    pub kind: ChatNodeKind,
    pub semantic: Option<String>,
}

/// A whole surface state.
#[derive(Debug)]
pub struct ChatSnapshot {
    pub surface_id: String,
    pub revision: u64,
    pub root: String,
    pub nodes: Vec<ChatNode>,
}

/// What the chat surface declares to the shell.
#[derive(Debug)]
pub struct ChatSurfaceContribution {
    pub surface_id: String,
    pub primary: bool,
    pub semantic: String,
    pub activity_id: String,
    pub activity_label: String,
    pub capabilities: Vec<String>,
}

/// The chat surface's declaration: a primary surface with the conversation
/// role, the Chat activity, and the column, row, list, text, markdown, text
/// area and button capabilities.
pub fn chat_surface_contribution() -> (c: ChatSurfaceContribution)
    ensures
        c.surface_id@ == CHAT_SURFACE_ID@,
        c.primary,
        c.semantic@ == "rintawa.chat.conversation"@,
        c.activity_id@ == CHAT_ACTIVITY_ID@,
        c.activity_label@ == "Chat"@,
        c.capabilities@.len() == 7,
{
    let mut capabilities: Vec<String> = Vec::new();
    capabilities.push(String::from_str("column"));
    capabilities.push(String::from_str("row"));
    capabilities.push(String::from_str("list"));
    capabilities.push(String::from_str("text"));
    capabilities.push(String::from_str("markdown"));
    capabilities.push(String::from_str("text-area"));
    capabilities.push(String::from_str("button"));
    ChatSurfaceContribution {
        surface_id: String::from_str(CHAT_SURFACE_ID),
        primary: true,
        semantic: String::from_str("rintawa.chat.conversation"),
        activity_id: String::from_str(CHAT_ACTIVITY_ID),
        activity_label: String::from_str("Chat"),
        capabilities,
    }
}

/// "navigation.conversation.{index}.select"
pub open spec fn conversation_select_id(index: nat) -> Seq<char> {
    "navigation.conversation."@ + decimal(index) + ".select"@
}

/// "message.{index}.select-branch"
pub open spec fn message_select_branch_id(index: nat) -> Seq<char> {
    "message."@ + decimal(index) + ".select-branch"@
}

fn numbered(prefix: &str, index: usize, suffix: &str) -> (r: String)
    ensures
        r@ == prefix@ + decimal(index as nat) + suffix@,
{
    let mut r = String::from_str(prefix);
    let digits = u64_text(index as u64);
    r.append(digits.as_str());
    r.append(suffix);
    r
}

/// The node selecting the conversation at `index` of the navigation.
pub fn conversation_select_node_id(index: usize) -> (r: String)
    ensures
        r@ == conversation_select_id(index as nat),
{
    numbered("navigation.conversation.", index, ".select")
}

/// The node selecting message `index` as the branch leaf.
pub fn message_select_branch_node_id(index: usize) -> (r: String)
    ensures
        r@ == message_select_branch_id(index as nat),
{
    numbered("message.", index, ".select-branch")
}

/// UTF-8 length of a character sequence.
pub open spec fn utf8_len(s: Seq<char>) -> int {
    vstd::utf8::encode_utf8(s).len() as int
}

proof fn lemma_encode_push(s: Seq<char>, c: char)
    ensures
        vstd::utf8::encode_utf8(s.push(c)) == vstd::utf8::encode_utf8(s) + vstd::utf8::encode_scalar(c as u32),
    decreases s.len(),
{
    if s.len() == 0 {
        assert(s.push(c).drop_first() =~= Seq::<char>::empty());
        assert(vstd::utf8::encode_scalar(c as u32) + Seq::<u8>::empty() =~= vstd::utf8::encode_scalar(c as u32));
        assert(vstd::utf8::encode_utf8(s) =~= Seq::<u8>::empty());
        assert(Seq::<u8>::empty() + vstd::utf8::encode_scalar(c as u32) =~= vstd::utf8::encode_scalar(c as u32));
        assert(s.push(c)[0] == c);
        assert(vstd::utf8::encode_utf8(s.push(c).drop_first()) =~= Seq::<u8>::empty());
        assert(vstd::utf8::encode_utf8(s.push(c)) == vstd::utf8::encode_scalar(c as u32) + vstd::utf8::encode_utf8(
            s.push(c).drop_first(),
        ));
    } else {
        lemma_encode_push(s.drop_first(), c);
        assert(s.push(c).drop_first() =~= s.drop_first().push(c));
        assert(s.push(c)[0] == s[0]);
        let a = vstd::utf8::encode_scalar(s[0] as u32);
        let b = vstd::utf8::encode_utf8(s.drop_first());
        let e = vstd::utf8::encode_scalar(c as u32);
        assert(vstd::utf8::encode_utf8(s) == a + b);
        assert(vstd::utf8::encode_utf8(s.push(c)) == vstd::utf8::encode_scalar(s.push(c)[0] as u32) + vstd::utf8::encode_utf8(
            s.push(c).drop_first(),
        ));
        assert(vstd::utf8::encode_utf8(s.push(c)) == a + (b + e));
        assert(a + (b + e) =~= (a + b) + e);
    }
}

fn char_width(c: char) -> (w: usize)
    ensures
        w == vstd::utf8::encode_scalar(c as u32).len(),
        1 <= w <= 4,
{
    proof {
        broadcast use vstd::utf8::char_is_scalar;
        assert(vstd::utf8::is_scalar(c as u32));
    }
    let u = c as u32;
    if u < 0x80 {
        1
    } else if u < 0x800 {
        2
    } else if u < 0x10000 {
        3
    } else {
        4
    }
}

/// `shown` is `value` cut to fit one node: `value` itself where it fits in
/// 16 KiB of UTF-8, else its longest character prefix that fits in 16 KiB
/// less three bytes, followed by an ellipsis.
pub open spec fn bounded_shown(shown: Seq<char>, value: Seq<char>) -> bool {
    &&& byte_len(value) <= MAX_PRESENTATION_TEXT_BYTES ==> shown == value
    &&& byte_len(value) > MAX_PRESENTATION_TEXT_BYTES ==> exists|k: int|
        0 <= k <= value.len() && shown == value.take(k).push('\u{2026}') && utf8_len(value.take(k)) <= MAX_PRESENTATION_TEXT_BYTES
            - 3 && (k < value.len() ==> utf8_len(value.take(k + 1)) > MAX_PRESENTATION_TEXT_BYTES - 3)
}

/// A text cut to fit one node: kept where it fits in 16 KiB of UTF-8, else
/// its longest character prefix that fits in 16 KiB less three bytes,
/// followed by an ellipsis.
pub fn bounded_text(value: &str) -> (r: String)
    ensures
        bounded_shown(r@, value@),
{
    if str_byte_len(value) <= MAX_PRESENTATION_TEXT_BYTES {
        return String::from_str(value);
    }
    let chars = chars_of(value);
    let limit: usize = MAX_PRESENTATION_TEXT_BYTES - 3;
    let mut out = String::new();
    let mut used: usize = 0;
    let mut k: usize = 0;
    proof {
        assert(chars@.take(0) =~= Seq::<char>::empty());
        assert(vstd::utf8::encode_utf8(Seq::<char>::empty()) =~= Seq::<u8>::empty());
    }
    while k < chars.len()
        invariant
            k <= chars@.len(),
            chars@ == value@,
            out@ == chars@.take(k as int),
            used == utf8_len(chars@.take(k as int)),
            used <= limit,
            limit == MAX_PRESENTATION_TEXT_BYTES - 3,
        ensures
            k <= chars@.len(),
            out@ == chars@.take(k as int),
            used == utf8_len(chars@.take(k as int)),
            used <= limit,
            chars@ == value@,
            k < chars@.len() ==> utf8_len(chars@.take(k + 1)) > limit,
        decreases chars@.len() - k,
    {
        let c = chars[k];
        let w = char_width(c);
        proof {
            assert(chars@.take(k + 1) =~= chars@.take(k as int).push(c));
            lemma_encode_push(chars@.take(k as int), c);
        }
        if used + w > limit {
            break;
        }
        crate::text::push_char(&mut out, c);
        used = used + w;
        k = k + 1;
    }
    crate::text::push_char(&mut out, '\u{2026}');
    out
}

/// Node kind `k` is a button for `action`, enabled as `enabled`.
pub open spec fn is_button(k: ChatNodeKind, action: Seq<char>, enabled: bool) -> bool {
    match k {
        ChatNodeKind::Button { action: a, enabled: e, .. } => a@ == action && e == enabled,
        _ => false,
    }
}

/// Some node `id` is a button for `action`, enabled as `enabled`.
pub open spec fn has_button(nodes: Seq<ChatNode>, id: Seq<char>, action: Seq<char>, enabled: bool) -> bool {
    exists|m: int| 0 <= m < nodes.len() && #[trigger] nodes[m].id@ == id && is_button(nodes[m].kind, action, enabled)
}

/// Node kind `k` is the composer: a text area submitting by the send action,
/// enabled as `enabled`.
pub open spec fn is_composer(k: ChatNodeKind, enabled: bool) -> bool {
    match k {
        ChatNodeKind::TextArea { submit_action, enabled: e, .. } => e == enabled && (submit_action matches Some(a) && a@
            == CHAT_ACTION_SEND@),
        _ => false,
    }
}

/// Some node `id` is the composer, enabled as `enabled`.
pub open spec fn has_composer(nodes: Seq<ChatNode>, id: Seq<char>, enabled: bool) -> bool {
    exists|m: int| 0 <= m < nodes.len() && #[trigger] nodes[m].id@ == id && is_composer(nodes[m].kind, enabled)
}

/// Node kind `k` is a text showing `text`.
pub open spec fn is_text(k: ChatNodeKind, text: Seq<char>) -> bool {
    match k {
        ChatNodeKind::Text { text: t } => t@ == text,
        _ => false,
    }
}

/// Some node `id` is a text showing `text`.
pub open spec fn has_text(nodes: Seq<ChatNode>, id: Seq<char>, text: Seq<char>) -> bool {
    exists|m: int| 0 <= m < nodes.len() && #[trigger] nodes[m].id@ == id && is_text(nodes[m].kind, text)
}

proof fn lemma_kept(a: Seq<ChatNode>, b: Seq<ChatNode>)
    requires
        a.len() <= b.len(),
        b.take(a.len() as int) == a,
    ensures
        forall|id: Seq<char>, action: Seq<char>, enabled: bool|
            has_button(a, id, action, enabled) ==> #[trigger] has_button(b, id, action, enabled),
        forall|id: Seq<char>, enabled: bool| has_composer(a, id, enabled) ==> #[trigger] has_composer(b, id, enabled),
        forall|id: Seq<char>, text: Seq<char>| has_text(a, id, text) ==> #[trigger] has_text(b, id, text),
{
    assert forall|id: Seq<char>, action: Seq<char>, enabled: bool|
        has_button(a, id, action, enabled) implies #[trigger] has_button(b, id, action, enabled) by {
        let m = choose|m: int| 0 <= m < a.len() && #[trigger] a[m].id@ == id && is_button(a[m].kind, action, enabled);
        assert(b.take(a.len() as int)[m] == b[m]);
    }
    assert forall|id: Seq<char>, enabled: bool| has_composer(a, id, enabled) implies #[trigger] has_composer(b, id, enabled) by {
        let m = choose|m: int| 0 <= m < a.len() && #[trigger] a[m].id@ == id && is_composer(a[m].kind, enabled);
        assert(b.take(a.len() as int)[m] == b[m]);
    }
    assert forall|id: Seq<char>, text: Seq<char>| has_text(a, id, text) implies #[trigger] has_text(b, id, text) by {
        let m = choose|m: int| 0 <= m < a.len() && #[trigger] a[m].id@ == id && is_text(a[m].kind, text);
        assert(b.take(a.len() as int)[m] == b[m]);
    }
}

proof fn lemma_prefix_trans(a: Seq<ChatNode>, b: Seq<ChatNode>, c: Seq<ChatNode>)
    requires
        a.len() <= b.len() <= c.len(),
        b.take(a.len() as int) == a,
        c.take(b.len() as int) == b,
    ensures
        c.take(a.len() as int) == a,
{
    assert(c.take(a.len() as int) =~= b.take(a.len() as int)) by {
        assert forall|k: int| 0 <= k < a.len() implies c.take(a.len() as int)[k] == b.take(a.len() as int)[k] by {
            assert(c.take(b.len() as int)[k] == c[k]);
        }
    }
}

fn semantic(id: &str) -> (r: Option<String>)
    ensures
        r matches Some(s) && s@ == id@,
{
    Some(String::from_str(id))
}

fn push_node(nodes: &mut Vec<ChatNode>, node: ChatNode)
    ensures
        final(nodes)@ == old(nodes)@.push(node),
        final(nodes)@.take(old(nodes)@.len() as int) == old(nodes)@,
        has_text(old(nodes)@.push(node), node.id@, node.kind->Text_text@) || !(node.kind is Text),
        is_button(node.kind, node.kind->Button_action@, node.kind->Button_enabled) ==> has_button(
            final(nodes)@,
            node.id@,
            node.kind->Button_action@,
            node.kind->Button_enabled,
        ),
{
    let ghost before = nodes@;
    nodes.push(node);
    proof {
        assert(nodes@.take(before.len() as int) =~= before);
        assert(nodes@[before.len() as int] == node);
    }
}

fn text_node(id: String, text: String) -> (n: ChatNode)
    ensures
        n.id == id,
        is_text(n.kind, text@),
        n.semantic is None,
{
    ChatNode { id, kind: ChatNodeKind::Text { text }, semantic: None }
}

fn button_node(id: String, label: String, action: &str, enabled: bool, appearance: ChatButtonAppearance) -> (n: ChatNode)
    ensures
        n.id == id,
        is_button(n.kind, action@, enabled),
        n.semantic is None,
{
    ChatNode {
        id,
        kind: ChatNodeKind::Button { label, action: String::from_str(action), enabled, appearance },
        semantic: None,
    }
}

fn with_semantic(node: ChatNode, role: &str) -> (n: ChatNode)
    ensures
        n.id == node.id,
        n.kind == node.kind,
        n.semantic matches Some(r) && r@ == role@,
{
    ChatNode { id: node.id, kind: node.kind, semantic: semantic(role) }
}

fn container(id: &str, kind: u8, children: Vec<String>) -> (n: ChatNode)
    ensures
        n.id@ == id@,
        !(n.kind is Text) && !(n.kind is Button) && !(n.kind is TextArea),
        kind == 0 ==> n.kind == (ChatNodeKind::Column { children }),
        kind == 1 ==> n.kind == (ChatNodeKind::Row { children }),
        kind > 1 ==> n.kind == (ChatNodeKind::List { children }),
        n.semantic is None,
{
    let kind = if kind == 0 {
        ChatNodeKind::Column { children }
    } else if kind == 1 {
        ChatNodeKind::Row { children }
    } else {
        ChatNodeKind::List { children }
    };
    ChatNode { id: String::from_str(id), kind, semantic: None }
}

fn concat(a: &str, b: &str) -> (r: String)
    ensures
        r@ == a@ + b@,
{
    let mut r = String::from_str(a);
    r.append(b);
    r
}

/// The conversation at `i` is not the selected one.
pub open spec fn conversation_selectable(v: ChatConversationView, i: int) -> bool {
    v.selected_conversation_id != Some(v.conversations@[i].id)
}

/// Message `i` is not the selected leaf.
pub open spec fn branch_selectable(v: ChatConversationView, i: int) -> bool {
    v.selected_leaf != Some(v.messages@[i].id)
}

fn label_text(id: String, text: String, role: &str) -> (n: ChatNode)
    ensures
        n.id == id,
        is_text(n.kind, text@),
        n.semantic matches Some(r) && r@ == role@,
{
    with_semantic(text_node(id, text), role)
}

fn append_navigation(nodes: &mut Vec<ChatNode>, view: Option<&ChatConversationView>)
    ensures
        old(nodes)@.len() <= final(nodes)@.len(),
        final(nodes)@.take(old(nodes)@.len() as int) == old(nodes)@,
        view matches Some(v) ==> forall|i: int|
            0 <= i < v.conversations@.len() ==> #[trigger] has_button(
                final(nodes)@,
                conversation_select_id(i as nat),
                CHAT_ACTION_SELECT_CONVERSATION@,
                conversation_selectable(*v, i),
            ),
{
    let ghost start = nodes@;
    let mut children: Vec<String> = Vec::new();
    match view {
        Some(v) => {
            let mut i: usize = 0;
            while i < v.conversations.len()
                invariant
                    i <= v.conversations@.len(),
                    start.len() <= nodes@.len(),
                    nodes@.take(start.len() as int) == start,
                    forall|j: int|
                        0 <= j < i ==> #[trigger] has_button(
                            nodes@,
                            conversation_select_id(j as nat),
                            CHAT_ACTION_SELECT_CONVERSATION@,
                            conversation_selectable(*v, j),
                        ),
                decreases v.conversations@.len() - i,
            {
                let c = &v.conversations[i];
                let node_id = conversation_select_node_id(i);
                children.push(node_id.clone());
                let label = match &c.title {
                    Some(t) => if str_is_blank(t.as_str()) {
                        numbered("Conversation ", i + 1, "")
                    } else {
                        bounded_text(t.as_str())
                    },
                    None => numbered("Conversation ", i + 1, ""),
                };
                let selected = match v.selected_conversation_id {
                    Some(id) => id == c.id,
                    None => false,
                };
                let appearance = if selected {
                    ChatButtonAppearance::Subtle
                } else {
                    ChatButtonAppearance::Default
                };
                let ghost before = nodes@;
                push_node(nodes, button_node(node_id, label, CHAT_ACTION_SELECT_CONVERSATION, !selected, appearance));
                proof {
                    lemma_kept(before, nodes@);
                    assert(nodes@.take(start.len() as int) =~= before.take(start.len() as int));
                }
                i = i + 1;
            }
        },
        None => {},
    }
    let ghost middle = nodes@;
    if children.len() == 0 {
        children.push(String::from_str("navigation.empty"));
        push_node(nodes, text_node(String::from_str("navigation.empty"), String::from_str("No conversations")));
    }
    let ghost late = nodes@;
    push_node(nodes, with_semantic(container("navigation", 2, children), "rintawa.chat.navigation"));
    proof {
        assert(late.take(middle.len() as int) =~= middle);
        assert(middle.take(start.len() as int) =~= start);
        lemma_prefix_trans(middle, late, nodes@);
        lemma_kept(middle, nodes@);
        lemma_prefix_trans(start, middle, nodes@);
    }
}

/// Participant `f` is the last of the view with identifier `author`.
pub open spec fn last_participant_at(view: ChatConversationView, author: crate::chat::EntityId, f: int) -> bool {
    &&& 0 <= f < view.participants@.len()
    &&& view.participants@[f].id == author
    &&& forall|j: int| f < j < view.participants@.len() ==> (#[trigger] view.participants@[j]).id != author
}

/// The shown name of a message's author: the last participant with its
/// identifier, or "Unknown participant".
fn author_name(view: &ChatConversationView, author: crate::chat::EntityId) -> (r: String)
    ensures
        (forall|j: int| 0 <= j < view.participants@.len() ==> (#[trigger] view.participants@[j]).id != author) ==> bounded_shown(
            r@,
            "Unknown participant"@,
        ),
        forall|f: int| #[trigger] last_participant_at(*view, author, f) ==> bounded_shown(r@, view.participants@[f].display_name@),
{
    let mut found: Option<usize> = None;
    let mut k: usize = 0;
    while k < view.participants.len()
        invariant
            k <= view.participants@.len(),
            match found {
                Some(f) => f < k && view.participants@[f as int].id == author && forall|j: int|
                    f < j < k ==> (#[trigger] view.participants@[j]).id != author,
                None => forall|j: int| 0 <= j < k ==> (#[trigger] view.participants@[j]).id != author,
            },
        decreases view.participants@.len() - k,
    {
        if view.participants[k].id == author {
            found = Some(k);
        }
        k = k + 1;
    }
    match found {
        Some(f) => bounded_text(view.participants[f].display_name.as_str()),
        None => bounded_text("Unknown participant"),
    }
}

/// How a content block is shown: text and Markdown cut to fit, an image as
/// its alternative text (or "[Image]" where it has none but blanks), a file
/// as its name.
pub open spec fn block_shown(k: ChatNodeKind, block: ContentBlock) -> bool {
    match block {
        ContentBlock::Text { text } => k matches ChatNodeKind::Text { text: t } && bounded_shown(t@, text@),
        ContentBlock::Markdown { markdown } => k matches ChatNodeKind::Markdown { source } && bounded_shown(source@, markdown@),
        ContentBlock::ImageRef { alt, .. } => k matches ChatNodeKind::Text { text: t } && if alt matches Some(a) && !is_blank(a@) {
            exists|b: Seq<char>| bounded_shown(b, alt.unwrap()@) && t@ == "[Image: "@ + b + "]"@
        } else {
            t@ == "[Image]"@
        },
        ContentBlock::FileRef { name, .. } => k matches ChatNodeKind::Text { text: t } && exists|b: Seq<char>|
            bounded_shown(b, name@) && t@ == "[File: "@ + b + "]"@,
    }
}

fn content_node(id: String, block: &ContentBlock) -> (n: ChatNode)
    ensures
        n.id == id,
        n.semantic is None,
        block_shown(n.kind, *block),
{
    match block {
        ContentBlock::Text { text } => text_node(id, bounded_text(text.as_str())),
        ContentBlock::Markdown { markdown } => ChatNode {
            id,
            kind: ChatNodeKind::Markdown { source: bounded_text(markdown.as_str()) },
            semantic: None,
        },
        ContentBlock::ImageRef { alt, .. } => {
            let shown = match alt {
                Some(a) => if str_is_blank(a.as_str()) {
                    String::from_str("[Image]")
                } else {
                    let mut t = String::from_str("[Image: ");
                    let b = bounded_text(a.as_str());
                    t.append(b.as_str());
                    t.append("]");
                    t
                },
                None => String::from_str("[Image]"),
            };
            text_node(id, shown)
        },
        ContentBlock::FileRef { name, .. } => {
            let mut t = String::from_str("[File: ");
            let b = bounded_text(name.as_str());
            t.append(b.as_str());
            t.append("]");
            text_node(id, t)
        },
    }
}

/// A participant line: its cut display name, marked where it may send.
pub open spec fn participant_line(t: Seq<char>, p: crate::chat_view::ChatParticipantView) -> bool {
    exists|b: Seq<char>| bounded_shown(b, p.display_name@) && t == if p.can_send {
        b + " \u{b7} you can send"@
    } else {
        b
    }
}

/// The node of participant `i`.
pub open spec fn participant_node_id(i: int) -> Seq<char> {
    "participant."@ + decimal(i as nat)
}

/// The nodes `append_participants` adds for `view` after `o` nodes: a line per
/// participant (or a note that there are none), then the row of them.
pub open spec fn participants_appended(nodes: Seq<ChatNode>, o: int, view: ChatConversationView) -> bool {
    let n = view.participants@.len() as int;
    let row = nodes[nodes.len() - 1];
    &&& n == 0 ==> {
        &&& nodes.len() == o + 2
        &&& nodes[o].id@ == "participants.empty"@ && is_text(nodes[o].kind, "No participants"@) && nodes[o].semantic is None
        &&& row.kind matches ChatNodeKind::Row { children } && children@.len() == 1 && children@[0]@ == "participants.empty"@
    }
    &&& n > 0 ==> {
        &&& nodes.len() == o + n + 1
        &&& forall|i: int|
            0 <= i < n ==> {
                &&& (#[trigger] nodes[o + i]).id@ == participant_node_id(i)
                &&& nodes[o + i].kind matches ChatNodeKind::Text { text } && participant_line(text@, view.participants@[i])
                &&& nodes[o + i].semantic matches Some(r) && r@ == "rintawa.chat.participant"@
            }
        &&& row.kind matches ChatNodeKind::Row { children } && children@.len() == n && forall|i: int|
            0 <= i < n ==> (#[trigger] children@[i])@ == participant_node_id(i)
    }
    &&& row.id@ == "participants"@
    &&& row.semantic matches Some(r) && r@ == "rintawa.chat.participants"@
}

fn append_participants(nodes: &mut Vec<ChatNode>, view: &ChatConversationView)
    ensures
        old(nodes)@.len() <= final(nodes)@.len(),
        final(nodes)@.take(old(nodes)@.len() as int) == old(nodes)@,
        participants_appended(final(nodes)@, old(nodes)@.len() as int, *view),
{
    let ghost start = nodes@;
    let mut children: Vec<String> = Vec::new();
    if view.participants.len() == 0 {
        children.push(String::from_str("participants.empty"));
        push_node(nodes, text_node(String::from_str("participants.empty"), String::from_str("No participants")));
    } else {
        let mut i: usize = 0;
        proof {
            reveal_strlit("");
        }
        while i < view.participants.len()
            invariant
                i <= view.participants@.len(),
                start.len() <= nodes@.len(),
                nodes@.take(start.len() as int) == start,
                nodes@.len() == start.len() + i,
                children@.len() == i,
                ""@ == Seq::<char>::empty(),
                forall|j: int| 0 <= j < i ==> (#[trigger] children@[j])@ == participant_node_id(j),
                forall|j: int|
                    0 <= j < i ==> {
                        &&& (#[trigger] nodes@[start.len() + j]).id@ == participant_node_id(j)
                        &&& nodes@[start.len() + j].kind matches ChatNodeKind::Text { text } && participant_line(
                            text@,
                            view.participants@[j],
                        )
                        &&& nodes@[start.len() + j].semantic matches Some(r) && r@ == "rintawa.chat.participant"@
                    },
            decreases view.participants@.len() - i,
        {
            let p = &view.participants[i];
            let id = numbered("participant.", i, "");
            proof {
                assert(id@ =~= participant_node_id(i as int));
            }
            children.push(id.clone());
            let b = bounded_text(p.display_name.as_str());
            let mut text = b.clone();
            if p.can_send {
                text.append(" \u{b7} you can send");
            }
            proof {
                assert(participant_line(text@, view.participants@[i as int]));
            }
            let ghost before = nodes@;
            push_node(nodes, label_text(id, text, "rintawa.chat.participant"));
            proof {
                assert(nodes@.take(start.len() as int) =~= before.take(start.len() as int));
                assert forall|j: int| 0 <= j < i + 1 implies (#[trigger] children@[j])@ == participant_node_id(j) by {
                    if j < i {
                        assert(children@[j] == children@.drop_last()[j]);
                    }
                }
                assert forall|j: int| 0 <= j < i + 1 implies {
                    &&& (#[trigger] nodes@[start.len() + j]).id@ == participant_node_id(j)
                    &&& nodes@[start.len() + j].kind matches ChatNodeKind::Text { text } && participant_line(
                        text@,
                        view.participants@[j],
                    )
                    &&& nodes@[start.len() + j].semantic matches Some(r) && r@ == "rintawa.chat.participant"@
                } by {
                    if j < i {
                        assert(nodes@[start.len() + j] == before[start.len() + j]);
                    }
                }
            }
            i = i + 1;
        }
    }
    let ghost middle = nodes@;
    push_node(nodes, with_semantic(container("participants", 1, children), "rintawa.chat.participants"));
    proof {
        assert(nodes@.take(start.len() as int) =~= middle.take(start.len() as int));
    }
}

fn append_timeline(nodes: &mut Vec<ChatNode>, view: &ChatConversationView)
    ensures
        old(nodes)@.len() <= final(nodes)@.len(),
        final(nodes)@.take(old(nodes)@.len() as int) == old(nodes)@,
        forall|i: int|
            0 <= i < view.messages@.len() ==> #[trigger] has_button(
                final(nodes)@,
                message_select_branch_id(i as nat),
                CHAT_ACTION_SELECT_BRANCH@,
                branch_selectable(*view, i),
            ),
{
    let ghost start = nodes@;
    let mut children: Vec<String> = Vec::new();
    if view.messages.len() == 0 {
        children.push(String::from_str("timeline.empty"));
        push_node(nodes, text_node(String::from_str("timeline.empty"), String::from_str("No messages yet")));
    } else {
        let mut i: usize = 0;
        while i < view.messages.len()
            invariant
                i <= view.messages@.len(),
                start.len() <= nodes@.len(),
                nodes@.take(start.len() as int) == start,
                forall|j: int|
                    0 <= j < i ==> #[trigger] has_button(
                        nodes@,
                        message_select_branch_id(j as nat),
                        CHAT_ACTION_SELECT_BRANCH@,
                        branch_selectable(*view, j),
                    ),
            decreases view.messages@.len() - i,
        {
            let message = &view.messages[i];
            let container_id = numbered("message.", i, "");
            let author_id = numbered("message.", i, ".author");
            let action_id = message_select_branch_node_id(i);
            let mut message_children: Vec<String> = Vec::new();
            message_children.push(author_id.clone());
            let ghost before = nodes@;
            push_node(nodes, text_node(author_id, author_name(view, message.author_participant_id)));
            let mut b: usize = 0;
            while b < message.blocks.len()
                invariant
                    b <= message.blocks@.len(),
                    before.len() <= nodes@.len(),
                    nodes@.take(before.len() as int) == before,
                decreases message.blocks@.len() - b,
            {
                let mut block_id = numbered("message.", i, ".block.");
                let digits = u64_text(b as u64);
                block_id.append(digits.as_str());
                message_children.push(block_id.clone());
                let ghost inner = nodes@;
                push_node(nodes, content_node(block_id, &message.blocks[b]));
                proof {
                    assert(nodes@.take(before.len() as int) =~= inner.take(before.len() as int));
                }
                b = b + 1;
            }
            message_children.push(action_id.clone());
            let is_leaf = match view.selected_leaf {
                Some(l) => l == message.id,
                None => false,
            };
            let label = if is_leaf {
                String::from_str("Selected branch")
            } else {
                String::from_str("Select branch")
            };
            let ghost before_button = nodes@;
            push_node(
                nodes,
                with_semantic(
                    button_node(action_id, label, CHAT_ACTION_SELECT_BRANCH, !is_leaf, ChatButtonAppearance::Subtle),
                    "rintawa.chat.message-actions",
                ),
            );
            children.push(container_id.clone());
            let ghost before_container = nodes@;
            push_node(nodes, with_semantic(container_from(container_id, message_children), "rintawa.chat.message"));
            proof {
                lemma_prefix_trans(before_button, before_container, nodes@);
                lemma_prefix_trans(before, before_button, nodes@);
                lemma_kept(before, nodes@);
                lemma_prefix_trans(start, before, nodes@);
            }
            i = i + 1;
        }
    }
    let ghost middle = nodes@;
    push_node(nodes, with_semantic(container("timeline", 2, children), "rintawa.chat.timeline"));
    proof {
        lemma_kept(middle, nodes@);
        assert(nodes@.take(start.len() as int) =~= middle.take(start.len() as int));
    }
}

fn container_from(id: String, children: Vec<String>) -> (n: ChatNode)
    ensures
        n.id == id,
        !(n.kind is Text) && !(n.kind is Button) && !(n.kind is TextArea),
{
    ChatNode { id, kind: ChatNodeKind::Column { children }, semantic: None }
}

/// Some participant of the view may send.
pub open spec fn anyone_can_send(v: ChatConversationView) -> bool {
    exists|i: int| 0 <= i < v.participants@.len() && (#[trigger] v.participants@[i]).can_send
}

fn any_can_send(view: &ChatConversationView) -> (r: bool)
    ensures
        r == anyone_can_send(*view),
{
    let mut k: usize = 0;
    while k < view.participants.len()
        invariant
            k <= view.participants@.len(),
            forall|j: int| 0 <= j < k ==> !(#[trigger] view.participants@[j]).can_send,
        decreases view.participants@.len() - k,
    {
        if view.participants[k].can_send {
            return true;
        }
        k = k + 1;
    }
    false
}

fn append_conversation(nodes: &mut Vec<ChatNode>, view: Option<&ChatConversationView>)
    ensures
        old(nodes)@.len() <= final(nodes)@.len(),
        final(nodes)@.take(old(nodes)@.len() as int) == old(nodes)@,
        view matches Some(v) ==> (v.selected_conversation_id is Some ==> {
            &&& has_composer(final(nodes)@, "composer"@, anyone_can_send(*v))
            &&& forall|i: int|
                0 <= i < v.messages@.len() ==> #[trigger] has_button(
                    final(nodes)@,
                    message_select_branch_id(i as nat),
                    CHAT_ACTION_SELECT_BRANCH@,
                    branch_selectable(*v, i),
                )
        }),
{
    let ghost start = nodes@;
    let v = match view {
        None => {
            let mut children: Vec<String> = Vec::new();
            children.push(String::from_str("conversation.empty"));
            push_node(nodes, container("conversation", 0, children));
            let ghost mid = nodes@;
            push_node(nodes, text_node(String::from_str("conversation.empty"), String::from_str("Open a World to load persistent Chat state.")));
            proof {
                lemma_prefix_trans(start, mid, nodes@);
            }
            return;
        },
        Some(v) => v,
    };
    if v.selected_conversation_id.is_none() {
        let mut children: Vec<String> = Vec::new();
        children.push(String::from_str("conversation.empty"));
        push_node(nodes, container("conversation", 0, children));
        let ghost mid = nodes@;
        push_node(nodes, text_node(String::from_str("conversation.empty"), String::from_str("Create a conversation to start chatting.")));
        proof {
            lemma_prefix_trans(start, mid, nodes@);
        }
        return;
    }
    let mut children: Vec<String> = Vec::new();
    children.push(String::from_str("participants"));
    children.push(String::from_str("timeline"));
    children.push(String::from_str("composer"));
    push_node(nodes, with_semantic(container("conversation", 0, children), "rintawa.chat.conversation"));
    let ghost a = nodes@;
    append_participants(nodes, v);
    let ghost b = nodes@;
    append_timeline(nodes, v);
    let ghost c = nodes@;
    let enabled = any_can_send(v);
    let composer = ChatNode {
        id: String::from_str("composer"),
        kind: ChatNodeKind::TextArea {
            value: String::new(),
            placeholder: Some(String::from_str("Message\u{2026}")),
            submit_action: Some(String::from_str(CHAT_ACTION_SEND)),
            enabled,
        },
        semantic: semantic("rintawa.chat.composer"),
    };
    push_node(nodes, composer);
    proof {
        lemma_prefix_trans(start, a, b);
        lemma_prefix_trans(start, b, c);
        lemma_prefix_trans(start, c, nodes@);
        lemma_kept(c, nodes@);
        let m = c.len() as int;
        assert(nodes@[m].id@ == "composer"@);
        assert(is_composer(nodes@[m].kind, anyone_can_send(*v)));
    }
}

/// The chat surface for a revision: a header with the title, the active
/// world (or that there is none) and a refresh button; a body with the
/// conversations to select from (the selected one not selectable), a button
/// creating a conversation where a world is open and a view loaded, and the
/// selected conversation's participants, messages (each with a button
/// selecting it as branch leaf, unless it is the leaf) and a composer that
/// is enabled where some participant may send; and the status, "Ready"
/// where none is given.
pub fn build_chat_snapshot(
    revision: u64,
    world_id: Option<&str>,
    view: Option<&ChatConversationView>,
    status: Option<&str>,
) -> (s: ChatSnapshot)
    ensures
        s.surface_id@ == CHAT_SURFACE_ID@,
        s.revision == revision,
        s.root@ == "root"@,
        has_text(
            s.nodes@,
            "status"@,
            match status {
                Some(t) => t@,
                None => "Ready"@,
            },
        ),
        has_text(
            s.nodes@,
            "header.world"@,
            match world_id {
                Some(w) => "World "@ + w@,
                None => "No active World"@,
            },
        ),
        has_button(s.nodes@, "header.refresh"@, CHAT_ACTION_REFRESH@, true),
        world_id is Some && view is Some ==> has_button(s.nodes@, "conversation.create"@, CHAT_ACTION_CREATE_CONVERSATION@, true),
        view matches Some(v) ==> forall|i: int|
            0 <= i < v.conversations@.len() ==> #[trigger] has_button(
                s.nodes@,
                conversation_select_id(i as nat),
                CHAT_ACTION_SELECT_CONVERSATION@,
                conversation_selectable(*v, i),
            ),
        view matches Some(v) ==> (v.selected_conversation_id is Some ==> {
            &&& has_composer(s.nodes@, "composer"@, anyone_can_send(*v))
            &&& forall|i: int|
                0 <= i < v.messages@.len() ==> #[trigger] has_button(
                    s.nodes@,
                    message_select_branch_id(i as nat),
                    CHAT_ACTION_SELECT_BRANCH@,
                    branch_selectable(*v, i),
                )
        }),
{
    let mut nodes: Vec<ChatNode> = Vec::new();
    let mut root_children: Vec<String> = Vec::new();
    root_children.push(String::from_str("header"));
    root_children.push(String::from_str("body"));
    root_children.push(String::from_str("status"));
    push_node(&mut nodes, with_semantic(container("root", 0, root_children), "rintawa.chat.navigation"));
    let mut header_children: Vec<String> = Vec::new();
    header_children.push(String::from_str("header.title"));
    header_children.push(String::from_str("header.world"));
    header_children.push(String::from_str("header.refresh"));
    push_node(&mut nodes, container("header", 1, header_children));
    push_node(&mut nodes, text_node(String::from_str("header.title"), String::from_str("Chat")));
    let world_text = match world_id {
        Some(w) => concat("World ", w),
        None => String::from_str("No active World"),
    };
    let ghost n0 = nodes@;
    push_node(&mut nodes, text_node(String::from_str("header.world"), world_text));
    let ghost n1 = nodes@;
    push_node(
        &mut nodes,
        button_node(String::from_str("header.refresh"), String::from_str("Refresh"), CHAT_ACTION_REFRESH, true, ChatButtonAppearance::Subtle),
    );
    let ghost n2 = nodes@;
    let status_text = match status {
        Some(t) => String::from_str(t),
        None => String::from_str("Ready"),
    };
    push_node(&mut nodes, text_node(String::from_str("status"), status_text));
    let ghost n3 = nodes@;
    proof {
        lemma_kept(n0, n1);
        lemma_kept(n1, n2);
        lemma_kept(n2, n3);
        lemma_prefix_trans(n0, n1, n2);
        lemma_kept(n0, n2);
        lemma_prefix_trans(n0, n2, n3);
        lemma_kept(n0, n3);
        lemma_prefix_trans(n1, n2, n3);
        lemma_kept(n1, n3);
    }
    let mut body_children: Vec<String> = Vec::new();
    body_children.push(String::from_str("navigation"));
    body_children.push(String::from_str("conversation"));
    let open = world_id.is_some() && view.is_some();
    if open {
        body_children.push(String::from_str("conversation.create"));
        push_node(
            &mut nodes,
            button_node(
                String::from_str("conversation.create"),
                String::from_str("New conversation"),
                CHAT_ACTION_CREATE_CONVERSATION,
                true,
                ChatButtonAppearance::Primary,
            ),
        );
    }
    let ghost n4 = nodes@;
    push_node(&mut nodes, with_semantic(container("body", 1, body_children), "rintawa.chat.conversation"));
    let ghost n5 = nodes@;
    append_navigation(&mut nodes, view);
    let ghost n6 = nodes@;
    append_conversation(&mut nodes, view);
    let ghost n7 = nodes@;
    proof {
        assert(n4.take(n3.len() as int) =~= n3);
        lemma_kept(n3, n4);
        lemma_kept(n4, n5);
        lemma_prefix_trans(n5, n6, n7);
        lemma_kept(n5, n7);
        lemma_kept(n6, n7);
    }
    ChatSnapshot { surface_id: String::from_str(CHAT_SURFACE_ID), revision, root: String::from_str("root"), nodes }
}

} // verus!
