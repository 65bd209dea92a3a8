//! Chat data: bounded conversation indexes, message content budgets, and
//! identifiers derived deterministically from command identities.

use vstd::prelude::*;

use crate::codec::{sha256_digest, sha256_of};
use crate::tavern::AssetRef;
use crate::text::{byte_len, is_blank, str_byte_len, str_is_blank};

verus! {

/// Most conversations indexed in one world.
pub const MAX_CHAT_CONVERSATIONS: usize = 32;
/// Most participants of one conversation.
pub const MAX_CHAT_PARTICIPANTS: usize = 32;
/// Most messages of one conversation.
pub const MAX_CHAT_MESSAGES: usize = 72;
/// Longest conversation title, in UTF-8 bytes.
pub const MAX_CHAT_TITLE_BYTES: usize = 512;
/// Longest participant name, in UTF-8 bytes.
pub const MAX_PARTICIPANT_NAME_BYTES: usize = 512;
/// Most content blocks in one message revision.
pub const MAX_MESSAGE_BLOCKS: usize = 64;
/// Longest text of one block, in UTF-8 bytes.
pub const MAX_MESSAGE_BLOCK_TEXT_BYTES: usize = 65536;
/// Largest total text of one revision, in UTF-8 bytes.
pub const MAX_MESSAGE_TEXT_BYTES: usize = 262144;
/// Longest attachment label, in UTF-8 bytes.
pub const MAX_ATTACHMENT_LABEL_BYTES: usize = 512;

/// A bounded text field of the chat model.
#[derive(Debug, Clone, Copy, PartialEq, Eq, Structural)]
pub enum TextField {
    Title,
    DisplayName,
    Text,
    Markdown,
    ImageAlt,
    FileName,
}

/// Stable name of a text field, as diagnostics show it.
pub open spec fn field_name(f: TextField) -> Seq<char> {
    match f {
        TextField::Title => "title"@,
        TextField::DisplayName => "display-name"@,
        TextField::Text => "text"@,
        TextField::Markdown => "markdown"@,
        TextField::ImageAlt => "image-alt"@,
        TextField::FileName => "file-name"@,
    }
}

impl TextField {
    /// Stable name of the field.
    pub fn name(self) -> (r: &'static str)
        ensures
            r@ == field_name(self),
    {
        match self {
            TextField::Title => "title",
            TextField::DisplayName => "display-name",
            TextField::Text => "text",
            TextField::Markdown => "markdown",
            TextField::ImageAlt => "image-alt",
            TextField::FileName => "file-name",
        }
    }
}

/// Why chat data was refused.
#[derive(Debug, Clone, Copy, PartialEq, Eq, Structural)]
pub enum ChatModelError {
    /// A text field is empty (where required) or too long.
    InvalidText { field: TextField, maximum: usize },
    /// A revision has no blocks or too many.
    TooManyBlocks,
    /// A revision's total text is over the budget.
    MessageTextTooLarge,
    /// Identifiers repeat or references contradict each other.
    ContradictoryMessageReferences,
    /// The world index is over its bound.
    TooManyConversations,
    /// The participant index is over its bound.
    TooManyParticipants,
    /// The message index is over its bound.
    TooManyMessages,
}

/// Why a chat schema could not be built.
#[derive(Debug, Clone, Copy, PartialEq, Eq, Structural)]
pub enum ChatSchemaError {
    /// A schema identifier failed validation.
    InvalidKey,
}

/// A world entity identifier (a UUID, as a 128-bit number).
#[derive(Debug, Clone, Copy, PartialEq, Eq, Structural)]
pub struct EntityId(pub u128);

/// A required text: not blank and within `maximum` UTF-8 bytes.
pub open spec fn required_text_ok(value: Seq<char>, maximum: usize) -> bool {
    !is_blank(value) && byte_len(value) <= maximum
}

/// Requires a non-blank text of at most `maximum` UTF-8 bytes.
pub fn validate_required_text(field: TextField, value: &str, maximum: usize) -> (r: Result<(), ChatModelError>)
    ensures
        required_text_ok(value@, maximum) ==> r is Ok,
        !required_text_ok(value@, maximum) ==> r == Err::<(), ChatModelError>(ChatModelError::InvalidText { field, maximum }),
{
    if str_is_blank(value) || str_byte_len(value) > maximum {
        return Err(ChatModelError::InvalidText { field, maximum });
    }
    Ok(())
}

/// Requires a text of at most `maximum` UTF-8 bytes.
pub fn validate_optional_text(field: TextField, value: &str, maximum: usize) -> (r: Result<(), ChatModelError>)
    ensures
        byte_len(value@) <= maximum ==> r is Ok,
        byte_len(value@) > maximum ==> r == Err::<(), ChatModelError>(ChatModelError::InvalidText { field, maximum }),
{
    if str_byte_len(value) > maximum {
        return Err(ChatModelError::InvalidText { field, maximum });
    }
    Ok(())
}

/// A conversation title, when present, is at most 512 UTF-8 bytes.
pub fn validate_title(title: &Option<String>) -> (r: Result<(), ChatModelError>)
    ensures
        match title {
            Some(t) => if byte_len(t@) > MAX_CHAT_TITLE_BYTES {
                r == Err::<(), ChatModelError>(ChatModelError::InvalidText { field: TextField::Title, maximum: MAX_CHAT_TITLE_BYTES })
            } else {
                r is Ok
            },
            None => r is Ok,
        },
{
    match title {
        Some(t) => validate_optional_text(TextField::Title, t.as_str(), MAX_CHAT_TITLE_BYTES),
        None => Ok(()),
    }
}

/// A participant name is not blank and at most 512 UTF-8 bytes.
pub fn validate_participant_name(name: &str) -> (r: Result<(), ChatModelError>)
    ensures
        required_text_ok(name@, MAX_PARTICIPANT_NAME_BYTES) ==> r is Ok,
        !required_text_ok(name@, MAX_PARTICIPANT_NAME_BYTES) ==> r == Err::<(), ChatModelError>(
            ChatModelError::InvalidText { field: TextField::DisplayName, maximum: MAX_PARTICIPANT_NAME_BYTES },
        ),
{
    validate_required_text(TextField::DisplayName, name, MAX_PARTICIPANT_NAME_BYTES)
}

/// Why an identifier index is refused.
#[derive(Debug, Clone, Copy, PartialEq, Eq, Structural)]
pub enum IndexValidationError {
    TooLarge,
    Duplicate,
}

/// No identifier occurs twice.
pub open spec fn unique_ids(ids: Seq<EntityId>) -> bool {
    forall|a: int, b: int| 0 <= a < b < ids.len() ==> ids[a] != ids[b]
}

/// Refuses an index longer than `maximum` or holding an identifier twice.
pub fn validate_unique_ids(ids: &Vec<EntityId>, maximum: usize) -> (r: Result<(), IndexValidationError>)
    ensures
        ids@.len() > maximum ==> r == Err::<(), IndexValidationError>(IndexValidationError::TooLarge),
        ids@.len() <= maximum && !unique_ids(ids@) ==> r == Err::<(), IndexValidationError>(IndexValidationError::Duplicate),
        ids@.len() <= maximum && unique_ids(ids@) ==> r is Ok,
{
    if ids.len() > maximum {
        return Err(IndexValidationError::TooLarge);
    }
    let mut b: usize = 0;
    while b < ids.len()
        invariant
            ids@.len() <= maximum,
            b <= ids@.len(),
            forall|x: int, y: int| 0 <= x < y < b ==> ids@[x] != ids@[y],
        decreases ids@.len() - b,
    {
        let mut a: usize = 0;
        while a < b
            invariant
                ids@.len() <= maximum,
                a <= b < ids@.len(),
                forall|x: int| 0 <= x < a ==> ids@[x] != ids@[b as int],
            decreases b - a,
        {
            if ids[a] == ids[b] {
                assert(ids@[a as int] == ids@[b as int]);
                return Err(IndexValidationError::Duplicate);
            }
            a = a + 1;
        }
        b = b + 1;
    }
    Ok(())
}

/// The conversations indexed by a world.
#[derive(Debug)]
pub struct ChatWorldIndex {
    /// Conversation entities in creation order.
    pub conversations: Vec<EntityId>,
}

impl ChatWorldIndex {
    /// At most 32 conversations, none twice.
    pub fn validate(&self) -> (r: Result<(), ChatModelError>)
        ensures
            self.conversations@.len() > MAX_CHAT_CONVERSATIONS ==> r == Err::<(), ChatModelError>(ChatModelError::TooManyConversations),
            self.conversations@.len() <= MAX_CHAT_CONVERSATIONS && !unique_ids(self.conversations@)
                ==> r == Err::<(), ChatModelError>(ChatModelError::ContradictoryMessageReferences),
            self.conversations@.len() <= MAX_CHAT_CONVERSATIONS && unique_ids(self.conversations@) ==> r is Ok,
    {
        match validate_unique_ids(&self.conversations, MAX_CHAT_CONVERSATIONS) {
            Ok(()) => Ok(()),
            Err(IndexValidationError::TooLarge) => Err(ChatModelError::TooManyConversations),
            Err(IndexValidationError::Duplicate) => Err(ChatModelError::ContradictoryMessageReferences),
        }
    }
}

/// An authenticated principal outside the world.
#[derive(Debug, Clone, Copy, PartialEq, Eq, Structural)]
pub struct PrincipalId(pub u128);

/// Who may author through a conversation participant.
#[derive(Debug, Clone, Copy, PartialEq, Eq, Structural)]
pub enum ParticipantBinding {
    /// One authenticated principal, directly.
    Principal { principal_id: PrincipalId },
    /// Whoever controls one world entity.
    Entity { entity_id: EntityId },
    /// No direct controller.
    Uncontrolled,
}

/// A participant's name and binding.
#[derive(Debug)]
pub struct ParticipantIdentity {
    /// Name shown in the conversation.
    pub display_name: String,
    /// Who may author through the participant.
    pub binding: ParticipantBinding,
}

/// The head of one logical message.
#[derive(Debug, Clone, Copy, PartialEq, Eq, Structural)]
pub struct MessageState {
    /// Conversation the message belongs to.
    pub conversation_id: EntityId,
    /// Participant that authored it.
    pub author_participant_id: EntityId,
    /// Parent message in the branch graph.
    pub parent_message_id: Option<EntityId>,
    /// Message this one is an alternative of.
    pub alternative_of: Option<EntityId>,
    /// Current revision.
    pub current_revision: EntityId,
}

/// The current state of one conversation.
#[derive(Debug)]
pub struct ConversationState {
    /// Optional title.
    pub title: Option<String>,
    /// Selected leaf of the visible branch.
    pub selected_leaf: Option<EntityId>,
    /// Participants in creation order.
    pub participant_ids: Vec<EntityId>,
    /// Messages in creation order, hidden alternatives included.
    pub message_ids: Vec<EntityId>,
}

/// The first error of a conversation state with these parts, if any: the
/// title, then the participant index, then the message index, then the
/// selected leaf.
pub open spec fn state_error(
    title: Option<String>,
    leaf: Option<EntityId>,
    participants: Seq<EntityId>,
    messages: Seq<EntityId>,
) -> Option<ChatModelError> {
    if title matches Some(t) && byte_len(t@) > MAX_CHAT_TITLE_BYTES {
        Some(ChatModelError::InvalidText { field: TextField::Title, maximum: MAX_CHAT_TITLE_BYTES })
    } else if participants.len() > MAX_CHAT_PARTICIPANTS {
        Some(ChatModelError::TooManyParticipants)
    } else if !unique_ids(participants) {
        Some(ChatModelError::ContradictoryMessageReferences)
    } else if messages.len() > MAX_CHAT_MESSAGES {
        Some(ChatModelError::TooManyMessages)
    } else if !unique_ids(messages) {
        Some(ChatModelError::ContradictoryMessageReferences)
    } else if leaf matches Some(l) && !messages.contains(l) {
        Some(ChatModelError::ContradictoryMessageReferences)
    } else {
        None
    }
}

/// The first error of a conversation state, if any.
pub open spec fn conversation_error(s: ConversationState) -> Option<ChatModelError> {
    state_error(s.title, s.selected_leaf, s.participant_ids@, s.message_ids@)
}

impl ConversationState {
    /// Checks the title, the bounded indexes and that the selected leaf is a
    /// message of the conversation.
    pub fn validate(&self) -> (r: Result<(), ChatModelError>)
        ensures
            match conversation_error(*self) {
                Some(e) => r == Err::<(), ChatModelError>(e),
                None => r is Ok,
            },
    {
        validate_title(&self.title)?;
        match validate_unique_ids(&self.participant_ids, MAX_CHAT_PARTICIPANTS) {
            Ok(()) => {},
            Err(IndexValidationError::TooLarge) => return Err(ChatModelError::TooManyParticipants),
            Err(IndexValidationError::Duplicate) => return Err(ChatModelError::ContradictoryMessageReferences),
        }
        match validate_unique_ids(&self.message_ids, MAX_CHAT_MESSAGES) {
            Ok(()) => {},
            Err(IndexValidationError::TooLarge) => return Err(ChatModelError::TooManyMessages),
            Err(IndexValidationError::Duplicate) => return Err(ChatModelError::ContradictoryMessageReferences),
        }
        match self.selected_leaf {
            Some(leaf) => if contains_id(&self.message_ids, leaf) {
                Ok(())
            } else {
                Err(ChatModelError::ContradictoryMessageReferences)
            },
            None => Ok(()),
        }
    }
}

pub(crate) fn contains_id(ids: &Vec<EntityId>, id: EntityId) -> (r: bool)
    ensures
        r == ids@.contains(id),
{
    let mut i: usize = 0;
    while i < ids.len()
        invariant
            i <= ids@.len(),
            forall|k: int| 0 <= k < i ==> ids@[k] != id,
        decreases ids@.len() - i,
    {
        if ids[i] == id {
            assert(ids@[i as int] == id);
            return true;
        }
        i = i + 1;
    }
    false
}

/// One content block of a message.
#[derive(Debug)]
pub enum ContentBlock {
    /// Plain text.
    Text { text: String },
    /// Markdown source.
    Markdown { markdown: String },
    /// An image attachment.
    ImageRef { asset: AssetRef, alt: Option<String> },
    /// A file attachment.
    FileRef { asset: AssetRef, name: String },
}

/// The block's text bytes counted against the revision budget, or its error.
pub open spec fn block_outcome(b: ContentBlock) -> Result<usize, ChatModelError> {
    match b {
        ContentBlock::Text { text } => if required_text_ok(text@, MAX_MESSAGE_BLOCK_TEXT_BYTES) {
            Ok(byte_len(text@))
        } else {
            Err(ChatModelError::InvalidText { field: TextField::Text, maximum: MAX_MESSAGE_BLOCK_TEXT_BYTES })
        },
        ContentBlock::Markdown { markdown } => if required_text_ok(markdown@, MAX_MESSAGE_BLOCK_TEXT_BYTES) {
            Ok(byte_len(markdown@))
        } else {
            Err(ChatModelError::InvalidText { field: TextField::Markdown, maximum: MAX_MESSAGE_BLOCK_TEXT_BYTES })
        },
        ContentBlock::ImageRef { alt, .. } => match alt {
            Some(a) => if byte_len(a@) > MAX_ATTACHMENT_LABEL_BYTES {
                Err(ChatModelError::InvalidText { field: TextField::ImageAlt, maximum: MAX_ATTACHMENT_LABEL_BYTES })
            } else {
                Ok(byte_len(a@))
            },
            None => Ok(0),
        },
        ContentBlock::FileRef { name, .. } => if required_text_ok(name@, MAX_ATTACHMENT_LABEL_BYTES) {
            Ok(byte_len(name@))
        } else {
            Err(ChatModelError::InvalidText { field: TextField::FileName, maximum: MAX_ATTACHMENT_LABEL_BYTES })
        },
    }
}

impl ContentBlock {
    /// Checks the block's text and returns its byte count.
    pub fn validate(&self) -> (r: Result<usize, ChatModelError>)
        ensures
            r == block_outcome(*self),
    {
        match self {
            ContentBlock::Text { text } => {
                validate_required_text(TextField::Text, text.as_str(), MAX_MESSAGE_BLOCK_TEXT_BYTES)?;
                Ok(str_byte_len(text.as_str()))
            },
            ContentBlock::Markdown { markdown } => {
                validate_required_text(TextField::Markdown, markdown.as_str(), MAX_MESSAGE_BLOCK_TEXT_BYTES)?;
                Ok(str_byte_len(markdown.as_str()))
            },
            ContentBlock::ImageRef { alt, .. } => match alt {
                Some(a) => {
                    validate_optional_text(TextField::ImageAlt, a.as_str(), MAX_ATTACHMENT_LABEL_BYTES)?;
                    Ok(str_byte_len(a.as_str()))
                },
                None => Ok(0),
            },
            ContentBlock::FileRef { name, .. } => {
                validate_required_text(TextField::FileName, name.as_str(), MAX_ATTACHMENT_LABEL_BYTES)?;
                Ok(str_byte_len(name.as_str()))
            },
        }
    }
}

/// Outcome of counting the blocks' text: the first block error, the overflow of
/// the running total, or the total.
pub open spec fn blocks_total(bs: Seq<ContentBlock>) -> Result<int, ChatModelError>
    decreases bs.len(),
{
    if bs.len() == 0 {
        Ok(0)
    } else {
        match blocks_total(bs.drop_last()) {
            Err(e) => Err(e),
            Ok(t) => match block_outcome(bs.last()) {
                Err(e) => Err(e),
                Ok(n) => if t + n > usize::MAX {
                    Err(ChatModelError::MessageTextTooLarge)
                } else {
                    Ok(t + n)
                },
            },
        }
    }
}

/// The error of a revision's blocks, if any.
pub open spec fn blocks_error(bs: Seq<ContentBlock>) -> Option<ChatModelError> {
    if bs.len() == 0 || bs.len() > MAX_MESSAGE_BLOCKS {
        Some(ChatModelError::TooManyBlocks)
    } else {
        match blocks_total(bs) {
            Err(e) => Some(e),
            Ok(t) => if t > MAX_MESSAGE_TEXT_BYTES {
                Some(ChatModelError::MessageTextTooLarge)
            } else {
                None
            },
        }
    }
}

/// Checks the block count, every block, and the total text budget.
pub fn validate_blocks(blocks: &Vec<ContentBlock>) -> (r: Result<(), ChatModelError>)
    ensures
        match blocks_error(blocks@) {
            Some(e) => r == Err::<(), ChatModelError>(e),
            None => r is Ok,
        },
{
    if blocks.len() == 0 || blocks.len() > MAX_MESSAGE_BLOCKS {
        return Err(ChatModelError::TooManyBlocks);
    }
    let mut total: usize = 0;
    let mut i: usize = 0;
    while i < blocks.len()
        invariant
            0 < blocks@.len() <= MAX_MESSAGE_BLOCKS,
            i <= blocks@.len(),
            blocks_total(blocks@.take(i as int)) == Ok::<int, ChatModelError>(total as int),
        decreases blocks@.len() - i,
    {
        proof {
            assert(blocks@.take(i + 1).drop_last() =~= blocks@.take(i as int));
        }
        assert(blocks@.take(i + 1).last() == blocks@[i as int]);
        let n = match blocks[i].validate() {
            Ok(n) => n,
            Err(e) => {
                proof {
                    assert(blocks_total(blocks@.take(i + 1)) == Err::<int, ChatModelError>(e));
                    lemma_blocks_total_err(blocks@, i as int + 1);
                }
                return Err(e);
            },
        };
        if n > usize::MAX - total {
            proof {
                assert(blocks_total(blocks@.take(i + 1)) == Err::<int, ChatModelError>(ChatModelError::MessageTextTooLarge));
                lemma_blocks_total_err(blocks@, i as int + 1);
            }
            return Err(ChatModelError::MessageTextTooLarge);
        }
        total = total + n;
        i = i + 1;
    }
    proof {
        assert(blocks@.take(blocks@.len() as int) =~= blocks@);
    }
    if total > MAX_MESSAGE_TEXT_BYTES {
        return Err(ChatModelError::MessageTextTooLarge);
    }
    Ok(())
}

/// Once the running count fails, the count over every longer prefix fails the same way.
proof fn lemma_blocks_total_err(bs: Seq<ContentBlock>, k: int)
    requires
        0 <= k <= bs.len(),
        blocks_total(bs.take(k)) is Err,
    ensures
        blocks_total(bs) == blocks_total(bs.take(k)),
    decreases bs.len() - k,
{
    if k < bs.len() {
        assert(bs.take(k + 1).drop_last() =~= bs.take(k));
        lemma_blocks_total_err(bs, k + 1);
    } else {
        assert(bs.take(k) =~= bs);
    }
}

/// The content of one message revision.
#[derive(Debug)]
pub struct MessageContent {
    /// Content blocks.
    pub blocks: Vec<ContentBlock>,
    /// Time the message takes effect, in Unix milliseconds.
    pub effective_at: Option<u64>,
}

impl MessageContent {
    /// Checks the block count, every block, and the total text budget.
    pub fn validate(&self) -> (r: Result<(), ChatModelError>)
        ensures
            match blocks_error(self.blocks@) {
                Some(e) => r == Err::<(), ChatModelError>(e),
                None => r is Ok,
            },
    {
        validate_blocks(&self.blocks)
    }
}

/// Creates one conversation.
#[derive(Debug)]
pub struct CreateConversationCommand {
    /// Optional title.
    pub title: Option<String>,
}

/// Big-endian bytes of a 64-bit length.
pub open spec fn be64(n: nat) -> Seq<u8> {
    Seq::new(8, |i: int| ((n / pow256((7 - i) as nat)) % 256) as u8)
}

/// 256 to the power `k`.
pub open spec fn pow256(k: nat) -> nat
    decreases k,
{
    if k == 0 {
        1
    } else {
        256 * pow256((k - 1) as nat)
    }
}

/// The bytes hashed for an identifier: the domain, then each chunk prefixed
/// with its length as a big-endian 64-bit number.
pub open spec fn framed(domain: Seq<u8>, chunks: Seq<Seq<u8>>) -> Seq<u8>
    decreases chunks.len(),
{
    if chunks.len() == 0 {
        domain
    } else {
        framed(domain, chunks.drop_last()) + be64(chunks.last().len()) + chunks.last()
    }
}

/// A name-based UUID from a digest: its first 16 bytes with version 5 and the
/// RFC 4122 variant set.
pub open spec fn uuid_from_digest(d: Seq<u8>) -> Seq<u8> {
    d.take(16).update(6, (d[6] & 0x0fu8) | 0x50u8).update(8, (d[8] & 0x3fu8) | 0x80u8)
}

proof fn lemma_pow256_values()
    ensures
        pow256(0) == 1,
        pow256(1) == 256,
        pow256(2) == 65536,
        pow256(3) == 16777216,
        pow256(4) == 4294967296,
        pow256(5) == 1099511627776,
        pow256(6) == 281474976710656,
        pow256(7) == 72057594037927936,
{
    reveal_with_fuel(pow256, 8);
}

fn push_be64(out: &mut Vec<u8>, n: u64)
    ensures
        final(out)@ == old(out)@ + be64(n as nat),
{
    let divisors: [u64; 8] = [72057594037927936, 281474976710656, 1099511627776, 4294967296, 16777216, 65536, 256, 1];
    proof {
        lemma_pow256_values();
    }
    let mut k: usize = 0;
    let ghost start = out@;
    while k < 8
        invariant
            k <= 8,
            divisors@ == seq![72057594037927936u64, 281474976710656u64, 1099511627776u64, 4294967296u64, 16777216u64, 65536u64, 256u64, 1u64],
            pow256(0) == 1,
            pow256(1) == 256,
            pow256(2) == 65536,
            pow256(3) == 16777216,
            pow256(4) == 4294967296,
            pow256(5) == 1099511627776,
            pow256(6) == 281474976710656,
            pow256(7) == 72057594037927936,
            out@ == start + be64(n as nat).take(k as int),
        decreases 8 - k,
    {
        let byte = ((n / divisors[k]) % 256) as u8;
        proof {
            assert(divisors@[k as int] as nat == pow256((7 - k) as nat));
            assert(be64(n as nat)[k as int] == byte);
            assert(be64(n as nat).take(k + 1) =~= be64(n as nat).take(k as int).push(be64(n as nat)[k as int]));
        }
        out.push(byte);
        k = k + 1;
    }
    proof {
        assert(be64(n as nat).take(8) =~= be64(n as nat));
    }
}

/// A name-based UUID from a domain and chunks: SHA-256 of the framed bytes,
/// cut to 16 bytes with version 5 and the RFC 4122 variant.
pub fn derive_uuid_bytes(domain: &[u8], chunks: &Vec<Vec<u8>>) -> (r: [u8; 16])
    ensures
        r@ == uuid_from_digest(sha256_of(framed(domain@, chunks@.map_values(|c: Vec<u8>| c@)))),
{
    let mut buf: Vec<u8> = crate::text::sub_bytes(domain, 0, domain.len());
    proof {
        assert(domain@.subrange(0, domain@.len() as int) =~= domain@);
    }
    let ghost views = chunks@.map_values(|c: Vec<u8>| c@);
    let mut i: usize = 0;
    while i < chunks.len()
        invariant
            i <= chunks@.len(),
            views == chunks@.map_values(|c: Vec<u8>| c@),
            buf@ == framed(domain@, views.take(i as int)),
        decreases chunks@.len() - i,
    {
        let chunk = &chunks[i];
        let ghost before = buf@;
        push_be64(&mut buf, chunk.len() as u64);
        let mut k: usize = 0;
        let ghost mid = buf@;
        while k < chunk.len()
            invariant
                k <= chunk@.len(),
                buf@ == mid + chunk@.take(k as int),
            decreases chunk@.len() - k,
        {
            buf.push(chunk[k]);
            proof {
                assert(chunk@.take(k + 1) =~= chunk@.take(k as int).push(chunk@[k as int]));
                assert(buf@ =~= mid + chunk@.take(k + 1));
            }
            k = k + 1;
        }
        proof {
            assert(chunk@.take(chunk@.len() as int) =~= chunk@);
            assert(views.take(i + 1).drop_last() =~= views.take(i as int));
            assert(views.take(i + 1).last() == chunk@);
            assert(buf@ =~= framed(domain@, views.take(i + 1)));
        }
        i = i + 1;
    }
    proof {
        assert(views.take(chunks@.len() as int) =~= views);
    }
    let digest = sha256_digest(buf.as_slice());
    let mut out: [u8; 16] = [0u8; 16];
    let mut k: usize = 0;
    while k < 16
        invariant
            k <= 16,
            digest@.len() == 32,
            out@.len() == 16,
            forall|j: int| 0 <= j < k ==> out@[j] == digest@[j],
        decreases 16 - k,
    {
        out[k] = digest[k];
        k = k + 1;
    }
    let b6 = (digest[6] & 0x0f) | 0x50;
    let b8 = (digest[8] & 0x3f) | 0x80;
    out[6] = b6;
    out[8] = b8;
    proof {
        assert(out@ =~= uuid_from_digest(digest@));
    }
    out
}

/// Version-4/5 UUID bytes as a 128-bit number, most significant byte first.
pub open spec fn uuid_number(b: Seq<u8>) -> int
    decreases b.len(),
{
    if b.len() == 0 {
        0
    } else {
        uuid_number(b.drop_last()) * 256 + b.last()
    }
}

fn uuid_from_bytes(b: [u8; 16]) -> (r: EntityId)
    ensures
        r.0 == uuid_number(b@),
{
    let mut n: u128 = 0;
    let mut k: usize = 0;
    while k < 16
        invariant
            k <= 16,
            n == uuid_number(b@.take(k as int)),
            uuid_number(b@.take(k as int)) < pow256(k as nat),
        decreases 16 - k,
    {
        proof {
            assert(b@.take(k + 1).drop_last() =~= b@.take(k as int));
            lemma_pow256_bound(k as nat);
            assert(n * 256 + b@[k as int] < pow256((k + 1) as nat)) by (nonlinear_arith)
                requires n < pow256(k as nat), b@[k as int] < 256, pow256((k + 1) as nat) == 256 * pow256(k as nat);
        }
        n = n * 256 + b[k] as u128;
        k = k + 1;
    }
    proof {
        assert(b@.take(16) =~= b@);
    }
    EntityId(n)
}

/// The entity a chat command creates as its primary subject: the command
/// identifier's own bytes, read as a UUID.
pub fn command_entity_id(command: [u8; 16]) -> (r: EntityId)
    ensures
        r.0 == uuid_number(command@),
{
    uuid_from_bytes(command)
}

proof fn lemma_pow256_mono(a: nat, b: nat)
    requires
        a <= b,
    ensures
        1 <= pow256(a) <= pow256(b),
    decreases b,
{
    if b > 0 {
        if a < b {
            lemma_pow256_mono(a, (b - 1) as nat);
        } else {
            lemma_pow256_mono((a - 1) as nat, (b - 1) as nat);
        }
    }
}

proof fn lemma_pow256_bound(k: nat)
    requires
        k < 16,
    ensures
        pow256(k + 1) <= 0x1_0000_0000_0000_0000_0000_0000_0000_0000,
        pow256(k + 1) == 256 * pow256(k),
        pow256(k) >= 1,
{
    lemma_pow256_mono(k + 1, 16);
    lemma_pow256_mono(0, k);
    reveal_with_fuel(pow256, 17);
}

/// The entity a chat command derives for `role`: a UUID over the command
/// identifier's bytes and the role text, in the entity domain.
pub fn derived_entity_id(command: [u8; 16], role: &str) -> (r: EntityId)
    ensures
        r.0 == uuid_number(uuid_from_digest(sha256_of(framed(entity_domain(), seq![command@, vstd::utf8::encode_utf8(role@)])))),
{
    let mut chunks: Vec<Vec<u8>> = Vec::new();
    chunks.push(crate::text::sub_bytes(command.as_slice(), 0, 16));
    let role_bytes = role.as_bytes();
    chunks.push(crate::text::sub_bytes(role_bytes, 0, role_bytes.len()));
    let domain: [u8; 22] = [114, 105, 110, 116, 97, 119, 97, 46, 99, 104, 97, 116, 46, 101, 110, 116, 105, 116, 121, 46, 118, 49];
    proof {
        assert(command@.subrange(0, 16) =~= command@);
        assert(role_bytes@.subrange(0, role_bytes@.len() as int) =~= role_bytes@);
        assert(domain@ =~= entity_domain());
        assert(chunks@.map_values(|c: Vec<u8>| c@) =~= seq![command@, vstd::utf8::encode_utf8(role@)]);
    }
    uuid_from_bytes(derive_uuid_bytes(domain.as_slice(), &chunks))
}

/// The entity-identifier domain, `rintawa.chat.entity.v1`.
pub open spec fn entity_domain() -> Seq<u8> {
    seq![114u8, 105, 110, 116, 97, 119, 97, 46, 99, 104, 97, 116, 46, 101, 110, 116, 105, 116, 121, 46, 118, 49]
}

/// The relation-identifier domain, `rintawa.chat.relation.v1`.
pub open spec fn relation_domain() -> Seq<u8> {
    seq![114u8, 105, 110, 116, 97, 119, 97, 46, 99, 104, 97, 116, 46, 114, 101, 108, 97, 116, 105, 111, 110, 46, 118, 49]
}

/// Big-endian bytes of an entity identifier.
pub open spec fn entity_bytes(e: EntityId) -> Seq<u8> {
    Seq::new(16, |i: int| ((e.0 as nat / pow256((15 - i) as nat)) % 256) as u8)
}

/// The relation between `entities` tagged `tag`: a UUID over each entity's
/// bytes and then the tag text, in the relation domain.
pub fn relation_id(tag: &str, entities: &Vec<EntityId>) -> (r: [u8; 16])
    ensures
        r@ == uuid_from_digest(sha256_of(framed(relation_domain(), entities@.map_values(|e: EntityId| entity_bytes(e)).push(vstd::utf8::encode_utf8(tag@))))),
{
    let mut chunks: Vec<Vec<u8>> = Vec::new();
    let mut i: usize = 0;
    while i < entities.len()
        invariant
            i <= entities@.len(),
            chunks@.map_values(|c: Vec<u8>| c@) == entities@.take(i as int).map_values(|e: EntityId| entity_bytes(e)),
        decreases entities@.len() - i,
    {
        let bytes = entity_to_bytes(entities[i]);
        let ghost before = chunks@;
        chunks.push(bytes);
        proof {
            assert(chunks@.map_values(|c: Vec<u8>| c@) =~= before.map_values(|c: Vec<u8>| c@).push(entity_bytes(entities@[i as int])));
            assert(entities@.take(i + 1).map_values(|e: EntityId| entity_bytes(e)) =~= entities@.take(i as int).map_values(|e: EntityId| entity_bytes(e)).push(entity_bytes(entities@[i as int])));
        }
        i = i + 1;
    }
    let tag_bytes = tag.as_bytes();
    let ghost before = chunks@;
    chunks.push(crate::text::sub_bytes(tag_bytes, 0, tag_bytes.len()));
    let domain: [u8; 24] = [114, 105, 110, 116, 97, 119, 97, 46, 99, 104, 97, 116, 46, 114, 101, 108, 97, 116, 105, 111, 110, 46, 118, 49];
    proof {
        assert(entities@.take(entities@.len() as int) =~= entities@);
        assert(tag_bytes@.subrange(0, tag_bytes@.len() as int) =~= tag_bytes@);
        assert(domain@ =~= relation_domain());
        assert(chunks@.map_values(|c: Vec<u8>| c@) =~= before.map_values(|c: Vec<u8>| c@).push(vstd::utf8::encode_utf8(tag@)));
    }
    derive_uuid_bytes(domain.as_slice(), &chunks)
}

fn entity_to_bytes(e: EntityId) -> (r: Vec<u8>)
    ensures
        r@ == entity_bytes(e),
{
    let mut out: Vec<u8> = Vec::new();
    let mut k: usize = 0;
    let mut div: u128 = 0x1_0000_0000_0000_0000_0000_0000_0000_00;
    proof {
        lemma_pow256_15();
    }
    assert(div >= 1);
    while k < 16
        invariant
            k <= 16,
            k < 16 ==> div as nat == pow256((15 - k) as nat),
            k < 16 ==> div >= 1,
            out@ == entity_bytes(e).take(k as int),
        decreases 16 - k,
    {
        let byte = ((e.0 / div) % 256) as u8;
        proof {
            assert(entity_bytes(e).take(k + 1) =~= entity_bytes(e).take(k as int).push(byte));
        }
        out.push(byte);
        if k < 15 {
            proof {
                lemma_pow256_bound((14 - k) as nat);
            }
            div = div / 256;
        }
        proof {
            if k < 15 {
                lemma_pow256_mono(0, (14 - k) as nat);
            }
        }
        k = k + 1;
    }
    proof {
        assert(entity_bytes(e).take(16) =~= entity_bytes(e));
    }
    out
}

proof fn lemma_pow256_15()
    ensures
        pow256(15) == 0x1_0000_0000_0000_0000_0000_0000_0000_00,
{
    reveal_with_fuel(pow256, 16);
}

} // verus!
