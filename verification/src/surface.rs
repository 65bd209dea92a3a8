//! The package manager's portable UI surface: a flat list of nodes, each
//! referring to child nodes by identifier, and the targets of its controls.

use vstd::prelude::*;

use crate::manager::{ActionTarget, CachedImage, SortDirection};
use crate::text::{byte_len, decimal, str_byte_len, u64_text};

verus! {

/// Most bytes of base64 image data one surface embeds.
pub const MAX_EMBEDDED_IMAGE_BASE64_BYTES: usize = 196608;

/// Visual weight of a button.
#[derive(Debug, Clone, Copy, PartialEq, Eq, Structural)]
pub enum ButtonAppearance {
    Default,
    Primary,
    Subtle,
    Danger,
}

impl ButtonAppearance {
    /// Wire name of the appearance.
    pub fn value(self) -> (r: &'static str)
        ensures
            r@ == appearance_value(self),
    {
        match self {
            ButtonAppearance::Default => "default",
            ButtonAppearance::Primary => "primary",
            ButtonAppearance::Subtle => "subtle",
            ButtonAppearance::Danger => "danger",
        }
    }
}

/// Wire name of an appearance.
pub open spec fn appearance_value(a: ButtonAppearance) -> Seq<char> {
    match a {
        ButtonAppearance::Default => "default"@,
        ButtonAppearance::Primary => "primary"@,
        ButtonAppearance::Subtle => "subtle"@,
        ButtonAppearance::Danger => "danger"@,
    }
}

/// Kind of a container node.
#[derive(Debug, Clone, Copy, PartialEq, Eq, Structural)]
pub enum ContainerKind {
    Row,
    Column,
    List,
}

/// Wire name of a container kind.
pub open spec fn container_value(k: ContainerKind) -> Seq<char> {
    match k {
        ContainerKind::Row => "row"@,
        ContainerKind::Column => "column"@,
        ContainerKind::List => "list"@,
    }
}

impl ContainerKind {
    /// Wire name of the container kind.
    pub fn value(self) -> (r: &'static str)
        ensures
            r@ == container_value(self),
    {
        match self {
            ContainerKind::Row => "row",
            ContainerKind::Column => "column",
            ContainerKind::List => "list",
        }
    }
}

/// One choice of a select control.
#[derive(Debug)]
pub struct SelectOption {
    /// Value reported when chosen.
    pub value: String,
    /// Text shown.
    pub label: String,
}

/// One column of a data grid.
#[derive(Debug)]
pub struct GridColumn {
    /// Sort key, for a sortable column.
    pub key: Option<String>,
    /// Header text.
    pub label: String,
    /// Relative width.
    pub weight: u32,
    /// Action a header click reports, for a sortable column.
    pub sort_action: Option<String>,
    /// Current sort direction, for the column sorted by.
    pub sort_direction: Option<String>,
}

impl GridColumn {
    /// A column that cannot be sorted by.
    pub fn plain(label: String, weight: u32) -> (c: GridColumn)
        ensures
            c.key is None,
            c.label == label,
            c.weight == weight,
            c.sort_action is None,
            c.sort_direction is None,
    {
        GridColumn { key: None, label, weight, sort_action: None, sort_direction: None }
    }

    /// A column sorted through the installed-list sort action; `direction` is
    /// the current direction where the list is sorted by it.
    pub fn sortable(key: &str, label: String, weight: u32, direction: Option<SortDirection>) -> (c: GridColumn)
        ensures
            c.key matches Some(k) && k@ == key@,
            c.label == label,
            c.weight == weight,
            c.sort_action matches Some(a) && a@ == "installed.sort"@,
            match direction {
                Some(d) => c.sort_direction matches Some(s) && s@ == crate::manager::direction_value(d),
                None => c.sort_direction is None,
            },
    {
        GridColumn {
            key: Some(String::from_str(key)),
            label,
            weight,
            sort_action: Some(String::from_str("installed.sort")),
            sort_direction: match direction {
                Some(d) => Some(String::from_str(d.value())),
                None => None,
            },
        }
    }
}

/// What a node shows or does.
#[derive(Debug)]
#[allow(inconsistent_fields)]
pub enum UiKind {
    Text { text: String },
    Markdown { source: String },
    Button { label: String, action: String, enabled: bool, appearance: ButtonAppearance },
    Icon { slot: String, label: Option<String>, size: Option<u32> },
    Image { media_type: String, data_base64: String, alt: String, width: Option<u32>, height: Option<u32> },
    Checkbox { label: String, checked: bool, change_action: String, enabled: bool },
    Select { value: String, options: Vec<SelectOption>, change_action: String, enabled: bool },
    TextInput { value: String, placeholder: String, change_action: String, submit_action: Option<String> },
    Split { children: Vec<String>, weights: Vec<u32>, axis: String },
    Container { container: ContainerKind, children: Vec<String> },
    DataGrid {
        columns: Vec<GridColumn>,
        cells: Vec<String>,
        selected_rows: Vec<u32>,
        row_keys: Vec<String>,
        row_action: Option<String>,
    },
}

/// A semantic role annotating a node (version 1 of the role vocabulary).
#[derive(Debug)]
pub struct Semantic {
    /// Role identifier.
    pub id: String,
    /// Traits of the role.
    pub traits: Vec<String>,
}

/// One node of a surface.
#[derive(Debug)]
pub struct UiNode {
    /// Node identifier.
    pub id: String,
    /// What the node is.
    pub kind: UiKind,
    /// Semantic annotation, if any.
    pub semantic: Option<Semantic>,
}

/// The node identifiers a node refers to: the children of a container or
/// split, the cells of a grid.
pub open spec fn node_refs(k: UiKind) -> Seq<String> {
    match k {
        UiKind::Split { children, .. } => children@,
        UiKind::Container { children, .. } => children@,
        UiKind::DataGrid { cells, .. } => cells@,
        _ => Seq::empty(),
    }
}

/// Some node has identifier `id`.
pub open spec fn has_node(nodes: Seq<UiNode>, id: Seq<char>) -> bool {
    exists|m: int| 0 <= m < nodes.len() && #[trigger] nodes[m].id@ == id
}

/// Every identifier of `refs` names a node of `nodes`.
pub open spec fn refs_defined(nodes: Seq<UiNode>, refs: Seq<String>) -> bool {
    forall|j: int| 0 <= j < refs.len() ==> has_node(nodes, #[trigger] refs[j]@)
}

/// Every node refers only to nodes that come before it.
pub open spec fn well_formed(nodes: Seq<UiNode>) -> bool
    decreases nodes.len(),
{
    nodes.len() == 0 || (well_formed(nodes.drop_last()) && refs_defined(nodes.drop_last(), node_refs(nodes.last().kind)))
}

/// Every control target belongs to a node.
pub open spec fn targets_defined(nodes: Seq<UiNode>, targets: Seq<(String, ActionTarget)>) -> bool {
    forall|t: int| 0 <= t < targets.len() ==> has_node(nodes, #[trigger] targets[t].0@)
}

/// Every node of `a` (by identifier) is a node of `b`.
pub open spec fn keeps_nodes(a: Seq<UiNode>, b: Seq<UiNode>) -> bool {
    forall|c: Seq<char>| has_node(a, c) ==> #[trigger] has_node(b, c)
}

/// Builds the nodes of one surface.
#[derive(Debug)]
pub struct UiBuilder {
    /// Counter the generated identifiers are numbered by.
    pub next_id: usize,
    /// Nodes built so far.
    pub nodes: Vec<UiNode>,
    /// Targets of the controls built so far, by node identifier.
    pub action_targets: Vec<(String, ActionTarget)>,
    /// Base64 image bytes embedded so far.
    pub embedded_image_base64_bytes: usize,
}

/// A surface ready to mount.
#[derive(Debug)]
pub struct RenderedSurface {
    /// Nodes; the root is last.
    pub nodes: Vec<UiNode>,
    /// Targets of the controls, by node identifier.
    pub action_targets: Vec<(String, ActionTarget)>,
}

impl UiBuilder {
    /// The nodes refer only to earlier nodes and every target has its node.
    pub open spec fn ok(&self) -> bool {
        well_formed(self.nodes@) && targets_defined(self.nodes@, self.action_targets@)
    }
}

/// `b` is `a` with nodes and targets added after those of `a`, whose nodes keep
/// their identifiers and kinds.
pub open spec fn grows(a: UiBuilder, b: UiBuilder) -> bool {
    &&& a.nodes@.len() <= b.nodes@.len()
    &&& forall|k: int| 0 <= k < a.nodes@.len() ==> (#[trigger] b.nodes@[k]).id == a.nodes@[k].id && b.nodes@[k].kind == a.nodes@[k].kind
    &&& a.action_targets@.len() <= b.action_targets@.len()
    &&& forall|t: int| 0 <= t < a.action_targets@.len() ==> #[trigger] b.action_targets@[t] == a.action_targets@[t]
}

/// `b` is `a` with more nodes: it is consistent, keeps every node and target of
/// `a`, and has node `id`.
pub open spec fn extends(a: UiBuilder, b: UiBuilder, id: Seq<char>) -> bool {
    &&& b.ok()
    &&& grows(a, b)
    &&& keeps_nodes(a.nodes@, b.nodes@)
    &&& has_node(b.nodes@, id)
}

/// The action a control reports and whether it is enabled: buttons,
/// checkboxes and selects.
pub open spec fn control_of(k: UiKind) -> Option<(Seq<char>, bool)> {
    match k {
        UiKind::Button { action, enabled, .. } => Some((action@, enabled)),
        UiKind::Checkbox { change_action, enabled, .. } => Some((change_action@, enabled)),
        UiKind::Select { change_action, enabled, .. } => Some((change_action@, enabled)),
        _ => None,
    }
}

/// The surface has a control reporting `action`, enabled or not as `enabled`
/// says, that acts on `target`.
pub open spec fn offers(ui: UiBuilder, action: Seq<char>, enabled: bool, target: ActionTarget) -> bool {
    exists|k: int, t: int|
        0 <= k < ui.nodes@.len() && 0 <= t < ui.action_targets@.len() && control_of(#[trigger] ui.nodes@[k].kind) == Some(
            (action, enabled),
        ) && #[trigger] ui.action_targets@[t] == (ui.nodes@[k].id, target)
}

/// What a surface offers stays offered as it grows.
pub proof fn lemma_offers_kept(a: UiBuilder, b: UiBuilder, action: Seq<char>, enabled: bool, target: ActionTarget)
    requires
        offers(a, action, enabled, target),
        grows(a, b),
    ensures
        offers(b, action, enabled, target),
{
    let (k, t) = choose|k: int, t: int|
        0 <= k < a.nodes@.len() && 0 <= t < a.action_targets@.len() && control_of(#[trigger] a.nodes@[k].kind) == Some(
            (action, enabled),
        ) && #[trigger] a.action_targets@[t] == (a.nodes@[k].id, target);
    assert(b.nodes@[k].kind == a.nodes@[k].kind);
    assert(b.action_targets@[t] == a.action_targets@[t]);
}

/// Growth is transitive.
pub proof fn lemma_grows_trans(a: UiBuilder, b: UiBuilder, c: UiBuilder)
    requires
        grows(a, b),
        grows(b, c),
    ensures
        grows(a, c),
{
    assert forall|k: int| 0 <= k < a.nodes@.len() implies (#[trigger] c.nodes@[k]).id == a.nodes@[k].id && c.nodes@[k].kind
        == a.nodes@[k].kind by {
        assert(b.nodes@[k].id == a.nodes@[k].id);
    }
    assert forall|t: int| 0 <= t < a.action_targets@.len() implies #[trigger] c.action_targets@[t] == a.action_targets@[t] by {
        assert(b.action_targets@[t] == a.action_targets@[t]);
    }
}

/// Node kind `k` is a text showing `text`.
pub open spec fn text_kind(k: UiKind, text: Seq<char>) -> bool {
    match k {
        UiKind::Text { text: t } => t@ == text,
        _ => false,
    }
}

/// Target `t` is package `id`.
pub open spec fn package_target(t: ActionTarget, id: Seq<char>) -> bool {
    match t {
        ActionTarget::Package(p) => p@ == id,
        _ => false,
    }
}

/// Some control of the surface reports `action` and is enabled as `enabled`,
/// whatever it targets.
pub open spec fn has_control(ui: UiBuilder, action: Seq<char>, enabled: bool) -> bool {
    exists|k: int| 0 <= k < ui.nodes@.len() && control_of(#[trigger] ui.nodes@[k].kind) == Some((action, enabled))
}

/// Some text node of the surface shows `text`.
pub open spec fn shows_text(ui: UiBuilder, text: Seq<char>) -> bool {
    exists|k: int| 0 <= k < ui.nodes@.len() && text_kind(#[trigger] ui.nodes@[k].kind, text)
}

/// A control of the surface reports `action` for package `id`, enabled as
/// `enabled`.
pub open spec fn offers_package(ui: UiBuilder, action: Seq<char>, enabled: bool, id: Seq<char>) -> bool {
    exists|k: int, t: int|
        0 <= k < ui.nodes@.len() && 0 <= t < ui.action_targets@.len() && control_of(#[trigger] ui.nodes@[k].kind) == Some(
            (action, enabled),
        ) && (#[trigger] ui.action_targets@[t]).0 == ui.nodes@[k].id && package_target(ui.action_targets@[t].1, id)
}

/// Controls and texts stay as the surface grows.
pub proof fn lemma_shown_kept(a: UiBuilder, b: UiBuilder)
    requires
        grows(a, b),
    ensures
        forall|action: Seq<char>, enabled: bool| has_control(a, action, enabled) ==> #[trigger] has_control(b, action, enabled),
        forall|text: Seq<char>| shows_text(a, text) ==> #[trigger] shows_text(b, text),
        forall|action: Seq<char>, enabled: bool, id: Seq<char>|
            offers_package(a, action, enabled, id) ==> #[trigger] offers_package(b, action, enabled, id),
        forall|action: Seq<char>, enabled: bool, target: ActionTarget|
            offers(a, action, enabled, target) ==> #[trigger] offers(b, action, enabled, target),
{
    assert forall|action: Seq<char>, enabled: bool| has_control(a, action, enabled) implies #[trigger] has_control(b, action, enabled) by {
        let k = choose|k: int| 0 <= k < a.nodes@.len() && control_of(#[trigger] a.nodes@[k].kind) == Some((action, enabled));
        assert(b.nodes@[k].kind == a.nodes@[k].kind);
    }
    assert forall|text: Seq<char>| shows_text(a, text) implies #[trigger] shows_text(b, text) by {
        let k = choose|k: int| 0 <= k < a.nodes@.len() && text_kind(#[trigger] a.nodes@[k].kind, text);
        assert(b.nodes@[k].kind == a.nodes@[k].kind);
    }
    assert forall|action: Seq<char>, enabled: bool, id: Seq<char>|
        offers_package(a, action, enabled, id) implies #[trigger] offers_package(b, action, enabled, id) by {
        let (k, t) = choose|k: int, t: int|
            0 <= k < a.nodes@.len() && 0 <= t < a.action_targets@.len() && control_of(#[trigger] a.nodes@[k].kind) == Some(
                (action, enabled),
            ) && (#[trigger] a.action_targets@[t]).0 == a.nodes@[k].id && package_target(a.action_targets@[t].1, id);
        assert(b.nodes@[k].kind == a.nodes@[k].kind && b.nodes@[k].id == a.nodes@[k].id);
        assert(b.action_targets@[t] == a.action_targets@[t]);
    }
    assert forall|action: Seq<char>, enabled: bool, target: ActionTarget|
        offers(a, action, enabled, target) implies #[trigger] offers(b, action, enabled, target) by {
        lemma_offers_kept(a, b, action, enabled, target);
    }
}

/// What a finished surface offers: a control reporting `action` for
/// `target`, enabled as `enabled`.
pub open spec fn surface_offers(s: RenderedSurface, action: Seq<char>, enabled: bool, target: ActionTarget) -> bool {
    exists|k: int, t: int|
        0 <= k < s.nodes@.len() && 0 <= t < s.action_targets@.len() && control_of(#[trigger] s.nodes@[k].kind) == Some(
            (action, enabled),
        ) && #[trigger] s.action_targets@[t] == (s.nodes@[k].id, target)
}

/// Some control of a finished surface reports `action`, enabled as `enabled`.
pub open spec fn surface_has_control(s: RenderedSurface, action: Seq<char>, enabled: bool) -> bool {
    exists|k: int| 0 <= k < s.nodes@.len() && control_of(#[trigger] s.nodes@[k].kind) == Some((action, enabled))
}

/// Some text node of a finished surface shows `text`.
pub open spec fn surface_shows_text(s: RenderedSurface, text: Seq<char>) -> bool {
    exists|k: int| 0 <= k < s.nodes@.len() && text_kind(#[trigger] s.nodes@[k].kind, text)
}

/// A finished surface keeps what its builder showed and offered.
pub proof fn lemma_finished(ui: UiBuilder, s: RenderedSurface)
    requires
        s.nodes@.len() == ui.nodes@.len() + 1,
        s.nodes@.drop_last() == ui.nodes@,
        s.action_targets@ == ui.action_targets@,
    ensures
        forall|action: Seq<char>, enabled: bool| has_control(ui, action, enabled) ==> #[trigger] surface_has_control(s, action, enabled),
        forall|text: Seq<char>| shows_text(ui, text) ==> #[trigger] surface_shows_text(s, text),
        forall|action: Seq<char>, enabled: bool, target: ActionTarget|
            offers(ui, action, enabled, target) ==> #[trigger] surface_offers(s, action, enabled, target),
{
    assert forall|k: int| 0 <= k < ui.nodes@.len() implies #[trigger] s.nodes@[k] == ui.nodes@[k] by {
        assert(s.nodes@.drop_last()[k] == s.nodes@[k]);
    }
    assert forall|action: Seq<char>, enabled: bool| has_control(ui, action, enabled) implies #[trigger] surface_has_control(
        s,
        action,
        enabled,
    ) by {
        let k = choose|k: int| 0 <= k < ui.nodes@.len() && control_of(#[trigger] ui.nodes@[k].kind) == Some((action, enabled));
        assert(s.nodes@[k] == ui.nodes@[k]);
    }
    assert forall|text: Seq<char>| shows_text(ui, text) implies #[trigger] surface_shows_text(s, text) by {
        let k = choose|k: int| 0 <= k < ui.nodes@.len() && text_kind(#[trigger] ui.nodes@[k].kind, text);
        assert(s.nodes@[k] == ui.nodes@[k]);
    }
    assert forall|action: Seq<char>, enabled: bool, target: ActionTarget|
        offers(ui, action, enabled, target) implies #[trigger] surface_offers(s, action, enabled, target) by {
        let (k, t) = choose|k: int, t: int|
            0 <= k < ui.nodes@.len() && 0 <= t < ui.action_targets@.len() && control_of(#[trigger] ui.nodes@[k].kind) == Some(
                (action, enabled),
            ) && #[trigger] ui.action_targets@[t] == (ui.nodes@[k].id, target);
        assert(s.nodes@[k] == ui.nodes@[k]);
    }
}

/// Identifier text `<prefix>.<n>`.
pub open spec fn numbered_id(prefix: Seq<char>, n: usize) -> Seq<char> {
    prefix + "."@ + decimal(n as nat)
}

/// Same identifiers and kinds, node by node.
pub open spec fn same_shape(a: Seq<UiNode>, b: Seq<UiNode>) -> bool {
    &&& a.len() == b.len()
    &&& forall|k: int| 0 <= k < a.len() ==> (#[trigger] a[k]).id == b[k].id && a[k].kind == b[k].kind
}

/// Nodes of the same shape are equally well formed and have the same
/// identifiers.
proof fn lemma_same_shape(a: Seq<UiNode>, b: Seq<UiNode>)
    requires
        same_shape(a, b),
    ensures
        well_formed(a) == well_formed(b),
        keeps_nodes(a, b),
        keeps_nodes(b, a),
        forall|refs: Seq<String>| refs_defined(a, refs) == #[trigger] refs_defined(b, refs),
    decreases a.len(),
{
    assert forall|c: Seq<char>| has_node(a, c) implies #[trigger] has_node(b, c) by {
        let m = choose|m: int| 0 <= m < a.len() && #[trigger] a[m].id@ == c;
        assert(a[m].id == b[m].id);
    }
    assert forall|c: Seq<char>| has_node(b, c) implies #[trigger] has_node(a, c) by {
        let m = choose|m: int| 0 <= m < b.len() && #[trigger] b[m].id@ == c;
        assert(a[m].id == b[m].id);
    }
    assert forall|refs: Seq<String>| refs_defined(a, refs) == #[trigger] refs_defined(b, refs) by {
        if refs_defined(a, refs) {
            assert forall|j: int| 0 <= j < refs.len() implies has_node(b, #[trigger] refs[j]@) by {
                assert(has_node(a, refs[j]@));
            }
        }
        if refs_defined(b, refs) {
            assert forall|j: int| 0 <= j < refs.len() implies has_node(a, #[trigger] refs[j]@) by {
                assert(has_node(b, refs[j]@));
            }
        }
    }
    if a.len() > 0 {
        let a0 = a.drop_last();
        let b0 = b.drop_last();
        assert forall|k: int| 0 <= k < a0.len() implies (#[trigger] a0[k]).id == b0[k].id && a0[k].kind == b0[k].kind by {
            assert(a0[k] == a[k] && b0[k] == b[k]);
        }
        lemma_same_shape(a0, b0);
        assert(a.last().kind == b.last().kind);
        assert(refs_defined(a0, node_refs(a.last().kind)) == refs_defined(b0, node_refs(b.last().kind)));
    }
}

proof fn lemma_push_node(nodes: Seq<UiNode>, targets: Seq<(String, ActionTarget)>, n: UiNode)
    requires
        well_formed(nodes),
        targets_defined(nodes, targets),
        refs_defined(nodes, node_refs(n.kind)),
    ensures
        well_formed(nodes.push(n)),
        targets_defined(nodes.push(n), targets),
        keeps_nodes(nodes, nodes.push(n)),
        has_node(nodes.push(n), n.id@),
{
    let q = nodes.push(n);
    assert(q.drop_last() =~= nodes);
    assert forall|c: Seq<char>| has_node(nodes, c) implies #[trigger] has_node(q, c) by {
        let m = choose|m: int| 0 <= m < nodes.len() && #[trigger] nodes[m].id@ == c;
        assert(q[m] == nodes[m]);
    }
    assert(q[nodes.len() as int] == n);
}

proof fn lemma_push_target(nodes: Seq<UiNode>, targets: Seq<(String, ActionTarget)>, id: String, t: ActionTarget)
    requires
        targets_defined(nodes, targets),
        has_node(nodes, id@),
    ensures
        targets_defined(nodes, targets.push((id, t))),
{
    assert forall|k: int| 0 <= k < targets.push((id, t)).len() implies has_node(nodes, #[trigger] targets.push((id, t))[k].0@) by {
        if k < targets.len() {
            assert(targets.push((id, t))[k] == targets[k]);
        }
    }
}

impl UiBuilder {
    /// An empty builder.
    pub fn new() -> (b: UiBuilder)
        ensures
            b.ok(),
            b.next_id == 0,
            b.nodes@.len() == 0,
            b.action_targets@.len() == 0,
            b.embedded_image_base64_bytes == 0,
    {
        UiBuilder { next_id: 0, nodes: Vec::new(), action_targets: Vec::new(), embedded_image_base64_bytes: 0 }
    }

    /// The next generated identifier, `<prefix>.<n>`, counting from 1.
    pub fn next_node_id(&mut self, prefix: &str) -> (r: String)
        ensures
            final(self).next_id == old(self).next_id.wrapping_add(1),
            r@ == numbered_id(prefix@, final(self).next_id),
            final(self).nodes == old(self).nodes,
            final(self).action_targets@ == old(self).action_targets@,
            final(self).embedded_image_base64_bytes == old(self).embedded_image_base64_bytes,
    {
        self.next_id = self.next_id.wrapping_add(1);
        let mut r = String::from_str(prefix);
        r.append(".");
        let n = u64_text(self.next_id as u64);
        r.append(n.as_str());
        r
    }

    /// Adds a node whose references are all defined, and the target of its
    /// control, if any.
    fn push_node(&mut self, id: String, kind: UiKind, target: Option<ActionTarget>)
        requires
            old(self).ok(),
            refs_defined(old(self).nodes@, node_refs(kind)),
        ensures
            final(self).ok(),
            final(self).nodes@ == old(self).nodes@.push(UiNode { id, kind, semantic: None }),
            final(self).action_targets@ == match target {
                Some(t) => old(self).action_targets@.push((id, t)),
                None => old(self).action_targets@,
            },
            final(self).next_id == old(self).next_id,
            final(self).embedded_image_base64_bytes == old(self).embedded_image_base64_bytes,
            keeps_nodes(old(self).nodes@, final(self).nodes@),
            has_node(final(self).nodes@, id@),
    {
        let node = UiNode { id: id.clone(), kind, semantic: None };
        proof {
            lemma_push_node(self.nodes@, self.action_targets@, node);
        }
        self.nodes.push(node);
        match target {
            Some(t) => {
                proof {
                    lemma_push_target(self.nodes@, self.action_targets@, id, t);
                }
                self.action_targets.push((id, t));
            },
            None => {},
        }
    }

    /// A text node.
    pub fn text(&mut self, text: String) -> (r: String)
        requires
            old(self).ok(),
        ensures
            extends(*old(self), *final(self), r@),
            final(self).nodes@ == old(self).nodes@.push(UiNode { id: r, kind: UiKind::Text { text }, semantic: None }),
            final(self).action_targets@ == old(self).action_targets@,
            r@ == numbered_id("text"@, final(self).next_id),
    {
        let id = self.next_node_id("text");
        self.push_node(id.clone(), UiKind::Text { text }, None);
        id
    }

    /// A Markdown node.
    pub fn markdown(&mut self, source: String) -> (r: String)
        requires
            old(self).ok(),
        ensures
            extends(*old(self), *final(self), r@),
            final(self).nodes@ == old(self).nodes@.push(UiNode { id: r, kind: UiKind::Markdown { source }, semantic: None }),
            final(self).action_targets@ == old(self).action_targets@,
            r@ == numbered_id("markdown"@, final(self).next_id),
    {
        let id = self.next_node_id("markdown");
        self.push_node(id.clone(), UiKind::Markdown { source }, None);
        id
    }

    /// A button with the default appearance.
    pub fn button(&mut self, label: String, action: &str, enabled: bool, target: Option<ActionTarget>) -> (r: String)
        requires
            old(self).ok(),
        ensures
            extends(*old(self), *final(self), r@),
            final(self).nodes@.len() == old(self).nodes@.len() + 1,
            final(self).nodes@.last().id == r,
            final(self).nodes@.last().kind matches UiKind::Button { label: l, action: a, enabled: e, appearance: p }
                && l == label && a@ == action@ && e == enabled && p == ButtonAppearance::Default,
            final(self).action_targets@ == match target {
                Some(t) => old(self).action_targets@.push((r, t)),
                None => old(self).action_targets@,
            },
    {
        self.button_with_appearance(label, action, enabled, target, ButtonAppearance::Default)
    }

    /// A button.
    pub fn button_with_appearance(
        &mut self,
        label: String,
        action: &str,
        enabled: bool,
        target: Option<ActionTarget>,
        appearance: ButtonAppearance,
    ) -> (r: String)
        requires
            old(self).ok(),
        ensures
            extends(*old(self), *final(self), r@),
            final(self).nodes@.len() == old(self).nodes@.len() + 1,
            final(self).nodes@.drop_last() == old(self).nodes@,
            final(self).nodes@.last().id == r,
            final(self).nodes@.last().kind matches UiKind::Button { label: l, action: a, enabled: e, appearance: p }
                && l == label && a@ == action@ && e == enabled && p == appearance,
            final(self).action_targets@ == match target {
                Some(t) => old(self).action_targets@.push((r, t)),
                None => old(self).action_targets@,
            },
            r@ == numbered_id("button"@, final(self).next_id),
    {
        let id = self.next_node_id("button");
        let kind = UiKind::Button { label, action: String::from_str(action), enabled, appearance };
        self.push_node(id.clone(), kind, target);
        proof {
            assert(self.nodes@.drop_last() =~= old(self).nodes@);
        }
        id
    }

    /// An icon from a named slot.
    pub fn icon(&mut self, slot: &str, label: Option<String>, size: Option<u32>) -> (r: String)
        requires
            old(self).ok(),
        ensures
            extends(*old(self), *final(self), r@),
            final(self).nodes@.len() == old(self).nodes@.len() + 1,
            final(self).nodes@.last().kind matches UiKind::Icon { slot: s, label: l, size: z } && s@ == slot@ && l == label
                && z == size,
            final(self).action_targets@ == old(self).action_targets@,
            r@ == numbered_id("icon"@, final(self).next_id),
    {
        let id = self.next_node_id("icon");
        self.push_node(id.clone(), UiKind::Icon { slot: String::from_str(slot), label, size }, None);
        id
    }

    /// An embedded image, unless it would take the surface over its image
    /// budget.
    pub fn image(&mut self, image: &CachedImage, alt: String, width: Option<u32>, height: Option<u32>) -> (r: Option<String>)
        requires
            old(self).ok(),
        ensures
            final(self).ok(),
            grows(*old(self), *final(self)),
            keeps_nodes(old(self).nodes@, final(self).nodes@),
            final(self).action_targets@ == old(self).action_targets@,
            old(self).embedded_image_base64_bytes + byte_len(image.data_base64@) > MAX_EMBEDDED_IMAGE_BASE64_BYTES
                ==> r is None && *final(self) == *old(self),
            old(self).embedded_image_base64_bytes + byte_len(image.data_base64@) <= MAX_EMBEDDED_IMAGE_BASE64_BYTES ==> {
                &&& r matches Some(id) && has_node(final(self).nodes@, id@)
                &&& final(self).embedded_image_base64_bytes == old(self).embedded_image_base64_bytes
                    + byte_len(image.data_base64@)
                &&& final(self).nodes@.last().kind matches UiKind::Image { media_type: m, data_base64: d, alt: a, width: w, height: h }
                    && m@ == image.media_type@ && d@ == image.data_base64@ && a == alt && w == width && h == height
            },
    {
        let size = str_byte_len(image.data_base64.as_str());
        if size > MAX_EMBEDDED_IMAGE_BASE64_BYTES || self.embedded_image_base64_bytes > MAX_EMBEDDED_IMAGE_BASE64_BYTES - size {
            return None;
        }
        self.embedded_image_base64_bytes = self.embedded_image_base64_bytes + size;
        let id = self.next_node_id("image");
        let kind = UiKind::Image {
            media_type: image.media_type.clone(),
            data_base64: image.data_base64.clone(),
            alt,
            width,
            height,
        };
        self.push_node(id.clone(), kind, None);
        Some(id)
    }

    /// A checkbox.
    pub fn checkbox(&mut self, label: String, checked: bool, action: &str, enabled: bool, target: Option<ActionTarget>) -> (r: String)
        requires
            old(self).ok(),
        ensures
            extends(*old(self), *final(self), r@),
            final(self).nodes@.len() == old(self).nodes@.len() + 1,
            final(self).nodes@.drop_last() == old(self).nodes@,
            final(self).nodes@.last().id == r,
            final(self).nodes@.last().kind matches UiKind::Checkbox { label: l, checked: c, change_action: a, enabled: e }
                && l == label && c == checked && a@ == action@ && e == enabled,
            final(self).action_targets@ == match target {
                Some(t) => old(self).action_targets@.push((r, t)),
                None => old(self).action_targets@,
            },
            r@ == numbered_id("checkbox"@, final(self).next_id),
    {
        let id = self.next_node_id("checkbox");
        let kind = UiKind::Checkbox { label, checked, change_action: String::from_str(action), enabled };
        self.push_node(id.clone(), kind, target);
        proof {
            assert(self.nodes@.drop_last() =~= old(self).nodes@);
        }
        id
    }

    /// A select control.
    pub fn select(
        &mut self,
        value: String,
        options: Vec<SelectOption>,
        action: &str,
        enabled: bool,
        target: Option<ActionTarget>,
    ) -> (r: String)
        requires
            old(self).ok(),
        ensures
            extends(*old(self), *final(self), r@),
            final(self).nodes@.len() == old(self).nodes@.len() + 1,
            final(self).nodes@.last().id == r,
            final(self).nodes@.last().kind matches UiKind::Select { value: v, options: o, change_action: a, enabled: e }
                && v == value && o == options && a@ == action@ && e == enabled,
            final(self).action_targets@ == match target {
                Some(t) => old(self).action_targets@.push((r, t)),
                None => old(self).action_targets@,
            },
            r@ == numbered_id("select"@, final(self).next_id),
    {
        let id = self.next_node_id("select");
        let kind = UiKind::Select { value, options, change_action: String::from_str(action), enabled };
        self.push_node(id.clone(), kind, target);
        id
    }

    /// A text input.
    pub fn input(&mut self, value: &str, placeholder: &str, change_action: &str, submit_action: Option<&str>) -> (r: String)
        requires
            old(self).ok(),
        ensures
            extends(*old(self), *final(self), r@),
            final(self).nodes@.len() == old(self).nodes@.len() + 1,
            final(self).nodes@.last().kind matches UiKind::TextInput { value: v, placeholder: p, change_action: c, submit_action: s }
                && v@ == value@ && p@ == placeholder@ && c@ == change_action@ && match submit_action {
                    Some(a) => s matches Some(t) && t@ == a@,
                    None => s is None,
                },
            final(self).action_targets@ == old(self).action_targets@,
            r@ == numbered_id("input"@, final(self).next_id),
    {
        let id = self.next_node_id("input");
        let kind = UiKind::TextInput {
            value: String::from_str(value),
            placeholder: String::from_str(placeholder),
            change_action: String::from_str(change_action),
            submit_action: match submit_action {
                Some(a) => Some(String::from_str(a)),
                None => None,
            },
        };
        self.push_node(id.clone(), kind, None);
        id
    }

    /// A split of named panes with weights.
    pub fn split_with_id(&mut self, id: &str, axis: &str, children: Vec<String>, weights: Vec<u32>) -> (r: String)
        requires
            old(self).ok(),
            refs_defined(old(self).nodes@, children@),
        ensures
            extends(*old(self), *final(self), r@),
            r@ == id@,
            final(self).nodes@.len() == old(self).nodes@.len() + 1,
            final(self).nodes@.last().kind matches UiKind::Split { children: c, weights: w, axis: a } && c == children && w
                == weights && a@ == axis@,
            final(self).action_targets@ == old(self).action_targets@,
    {
        let node_id = String::from_str(id);
        let kind = UiKind::Split { children, weights, axis: String::from_str(axis) };
        self.push_node(node_id.clone(), kind, None);
        node_id
    }

    /// A container of child nodes.
    pub fn container(&mut self, container: ContainerKind, children: Vec<String>) -> (r: String)
        requires
            old(self).ok(),
            refs_defined(old(self).nodes@, children@),
        ensures
            extends(*old(self), *final(self), r@),
            final(self).nodes@.len() == old(self).nodes@.len() + 1,
            final(self).nodes@.last().kind matches UiKind::Container { container: k, children: c } && k == container && c
                == children,
            final(self).action_targets@ == old(self).action_targets@,
            r@ == numbered_id(container_value(container), final(self).next_id),
    {
        let id = self.next_node_id(container.value());
        self.push_node(id.clone(), UiKind::Container { container, children }, None);
        id
    }

    /// A row of child nodes.
    pub fn row(&mut self, children: Vec<String>) -> (r: String)
        requires
            old(self).ok(),
            refs_defined(old(self).nodes@, children@),
        ensures
            extends(*old(self), *final(self), r@),
            final(self).action_targets@ == old(self).action_targets@,
    {
        self.container(ContainerKind::Row, children)
    }

    /// A column of child nodes.
    pub fn column(&mut self, children: Vec<String>) -> (r: String)
        requires
            old(self).ok(),
            refs_defined(old(self).nodes@, children@),
        ensures
            extends(*old(self), *final(self), r@),
            final(self).action_targets@ == old(self).action_targets@,
    {
        self.container(ContainerKind::Column, children)
    }

    /// A list of child nodes.
    pub fn list(&mut self, children: Vec<String>) -> (r: String)
        requires
            old(self).ok(),
            refs_defined(old(self).nodes@, children@),
        ensures
            extends(*old(self), *final(self), r@),
            final(self).action_targets@ == old(self).action_targets@,
    {
        self.container(ContainerKind::List, children)
    }

    /// A data grid of cell nodes, row after row.
    pub fn data_grid_with_id(
        &mut self,
        id: &str,
        columns: Vec<GridColumn>,
        cells: Vec<String>,
        selected_rows: Vec<u32>,
        row_keys: Vec<String>,
        row_action: Option<&str>,
    ) -> (r: String)
        requires
            old(self).ok(),
            refs_defined(old(self).nodes@, cells@),
        ensures
            extends(*old(self), *final(self), r@),
            r@ == id@,
            final(self).nodes@.len() == old(self).nodes@.len() + 1,
            final(self).nodes@.last().kind matches UiKind::DataGrid { columns: c, cells: x, selected_rows: s, row_keys: k, row_action: a }
                && c == columns && x == cells && s == selected_rows && k == row_keys && match row_action {
                    Some(t) => a matches Some(u) && u@ == t@,
                    None => a is None,
                },
            final(self).action_targets@ == old(self).action_targets@,
    {
        let node_id = String::from_str(id);
        let kind = UiKind::DataGrid {
            columns,
            cells,
            selected_rows,
            row_keys,
            row_action: match row_action {
                Some(a) => Some(String::from_str(a)),
                None => None,
            },
        };
        self.push_node(node_id.clone(), kind, None);
        node_id
    }

    /// Annotates the first node with identifier `id` with a semantic role.
    pub fn presentation_semantic(&mut self, id: String, semantic: &str, traits: &[&str]) -> (r: String)
        requires
            old(self).ok(),
        ensures
            r == id,
            final(self).ok(),
            same_shape(old(self).nodes@, final(self).nodes@),
            keeps_nodes(old(self).nodes@, final(self).nodes@),
            keeps_nodes(final(self).nodes@, old(self).nodes@),
            final(self).action_targets@ == old(self).action_targets@,
            final(self).next_id == old(self).next_id,
            final(self).embedded_image_base64_bytes == old(self).embedded_image_base64_bytes,
            grows(*old(self), *final(self)),
            has_node(old(self).nodes@, id@) ==> exists|k: int| 0 <= k < final(self).nodes@.len() && #[trigger] final(self).nodes@[k].id@ == id@
                && (forall|j: int| 0 <= j < k ==> (#[trigger] final(self).nodes@[j]).id@ != id@)
                && (final(self).nodes@[k].semantic matches Some(m) && m.id@ == semantic@
                && m.traits@.map_values(|t: String| t@) == traits@.map_values(|t: &str| t@)),
    {
        let mut k: usize = 0;
        while k < self.nodes.len()
            invariant
                *self == *old(self),
                old(self).ok(),
                k <= self.nodes@.len(),
                forall|j: int| 0 <= j < k ==> (#[trigger] self.nodes@[j]).id@ != id@,
            decreases self.nodes@.len() - k,
        {
            if crate::text::str_equal(self.nodes[k].id.as_str(), id.as_str()) {
                let mut names: Vec<String> = Vec::new();
                let mut t: usize = 0;
                while t < traits.len()
                    invariant
                        t <= traits@.len(),
                        names@.map_values(|x: String| x@) == traits@.take(t as int).map_values(|x: &str| x@),
                    decreases traits@.len() - t,
                {
                    let ghost before_names = names@;
                    let name = String::from_str(traits[t]);
                    names.push(name);
                    proof {
                        assert(names@.map_values(|x: String| x@) =~= before_names.map_values(|x: String| x@).push(traits@[t as int]@));
                        assert(traits@.take(t + 1) =~= traits@.take(t as int).push(traits@[t as int]));
                    }
                    t = t + 1;
                }
                proof {
                    assert(traits@.take(traits@.len() as int) =~= traits@);
                }
                let ghost before = self.nodes@;
                let mut node = self.nodes.remove(k);
                node.semantic = Some(Semantic { id: String::from_str(semantic), traits: names });
                self.nodes.insert(k, node);
                proof {
                    assert(self.nodes@ =~= before.update(k as int, node));
                    assert(same_shape(before, self.nodes@));
                    lemma_same_shape(before, self.nodes@);
                    assert(self.nodes@[k as int].id@ == id@);
                    assert forall|i: int| 0 <= i < self.action_targets@.len() implies has_node(self.nodes@, #[trigger] self.action_targets@[i].0@) by {
                        assert(has_node(before, self.action_targets@[i].0@));
                    }
                }
                return id;
            }
            k = k + 1;
        }
        proof {
            lemma_same_shape(self.nodes@, self.nodes@);
            if has_node(self.nodes@, id@) {
                let m = choose|m: int| 0 <= m < self.nodes@.len() && #[trigger] self.nodes@[m].id@ == id@;
                assert(self.nodes@[m].id@ != id@);
            }
        }
        id
    }

    /// Ends the surface with a root column of `root_children`.
    pub fn finish(self, root_children: Vec<String>) -> (s: RenderedSurface)
        requires
            self.ok(),
            refs_defined(self.nodes@, root_children@),
        ensures
            well_formed(s.nodes@),
            targets_defined(s.nodes@, s.action_targets@),
            s.nodes@.len() == self.nodes@.len() + 1,
            s.nodes@.drop_last() == self.nodes@,
            s.nodes@.last().id@ == "root"@,
            s.nodes@.last().kind matches UiKind::Container { container: k, children: c } && k == ContainerKind::Column && c
                == root_children,
            s.action_targets@ == self.action_targets@,
    {
        let mut b = self;
        let ghost before = b.nodes@;
        b.push_node(String::from_str("root"), UiKind::Container { container: ContainerKind::Column, children: root_children }, None);
        proof {
            assert(b.nodes@.drop_last() =~= before);
        }
        RenderedSurface { nodes: b.nodes, action_targets: b.action_targets }
    }
}

} // verus!
