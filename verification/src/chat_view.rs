//! The conversation view one principal gets of a chat, evaluated over world
//! reads: either the reads still missing, or a consistent view.

use vstd::prelude::*;

use crate::chat::{
    contains_id, ChatWorldIndex, ContentBlock, ConversationState, EntityId, MessageContent, MessageState,
    ParticipantBinding, ParticipantIdentity, PrincipalId, unique_ids, conversation_error, MAX_CHAT_CONVERSATIONS,
};
use crate::tavern::AssetRef;
use crate::text::str_equal;

verus! {

/// Reason given for malformed projection input.
pub const DIAGNOSTIC_INVALID_INPUT: &'static str = "invalid Chat projection input";
/// Reason given for missing or inconsistent chat state.
pub const DIAGNOSTIC_MISSING_STATE: &'static str = "required Chat projection state is missing or incompatible";
/// Reason given when the reads lack an answer the evaluation needs.
pub const DIAGNOSTIC_TRANSPORT: &'static str = "Chat projection snapshot transport is incomplete";

/// The conversation view's schema.
pub const CONVERSATION_PROJECTION: &'static str = "rintawa.chat.conversation-view";
/// The world's chat index facet.
pub const CHAT_WORLD_INDEX_FACET: &'static str = "rintawa.chat.world-index";
/// A conversation's state facet.
pub const CONVERSATION_STATE_FACET: &'static str = "rintawa.chat.conversation-state";
/// A participant's identity facet.
pub const PARTICIPANT_IDENTITY_FACET: &'static str = "rintawa.chat.participant-identity";
/// A message's state facet.
pub const MESSAGE_STATE_FACET: &'static str = "rintawa.chat.message-state";
/// A message revision's content facet.
pub const MESSAGE_CONTENT_FACET: &'static str = "rintawa.chat.message-content";
/// The send-message command.
pub const SEND_MESSAGE_COMMAND: &'static str = "rintawa.chat.send-message";

/// A world schema: identifier and version.
#[derive(Debug)]
pub struct SchemaKey {
    pub id: String,
    pub version: u32,
}

/// Two schema keys name the same schema.
pub open spec fn same_schema(a: SchemaKey, b: SchemaKey) -> bool {
    a.id@ == b.id@ && a.version == b.version
}

/// `k` is version 1 of the chat schema `id`.
pub open spec fn is_schema(k: SchemaKey, id: Seq<char>) -> bool {
    k.id@ == id && k.version == 1
}

pub(crate) fn schema_eq(a: &SchemaKey, b: &SchemaKey) -> (r: bool)
    ensures
        r == same_schema(*a, *b),
{
    a.version == b.version && str_equal(a.id.as_str(), b.id.as_str())
}

/// Version 1 of the chat schema `id`.
pub fn chat_schema(id: &str) -> (k: SchemaKey)
    ensures
        is_schema(k, id@),
{
    SchemaKey { id: String::from_str(id), version: 1 }
}

/// What a facet is attached to.
#[derive(Debug, Clone, Copy, PartialEq, Eq, Structural)]
pub enum FacetTarget {
    World,
    Entity(EntityId),
}

/// A facet's payload, decoded as its schema says.
#[derive(Debug)]
pub enum FacetPayload {
    WorldIndex(ChatWorldIndex),
    Conversation(ConversationState),
    Participant(ParticipantIdentity),
    Message(MessageState),
    Content(MessageContent),
    /// A payload that does not decode as its schema says.
    Undecodable,
}

/// The answer to one read.
#[derive(Debug)]
pub enum ProjectionReadResult {
    /// The facet of `schema` on `target`, if it is set.
    Facet { target: FacetTarget, schema: SchemaKey, value: Option<FacetPayload> },
    /// Whether `actor_entity` may issue commands of `command_schema`.
    CanControl { actor_entity: EntityId, command_schema: SchemaKey, allowed: bool },
}

/// A read the evaluation asks for.
#[derive(Debug)]
pub enum ProjectionReadRequest {
    Facet { target: FacetTarget, schema: SchemaKey },
    CanControl { actor_entity: EntityId, command_schema: SchemaKey },
}

/// Which conversation to show: a given one, or the newest.
#[derive(Debug, Clone, Copy, PartialEq, Eq, Structural)]
pub struct ChatProjectionInput {
    pub conversation_id: Option<EntityId>,
}

/// One projection evaluation: its schema, input (`None` where it did not
/// decode), the principal it is for, and the reads answered so far.
#[derive(Debug)]
pub struct ProjectionRequest {
    pub projection_schema: SchemaKey,
    pub input: Option<ChatProjectionInput>,
    pub principal: PrincipalId,
    pub reads: Vec<ProjectionReadResult>,
}

/// A conversation in the navigation list.
#[derive(Debug)]
pub struct ChatConversationSummary {
    pub id: EntityId,
    pub title: Option<String>,
}

/// A participant as the principal sees it.
#[derive(Debug)]
pub struct ChatParticipantView {
    pub id: EntityId,
    pub display_name: String,
    pub linked_entity: Option<EntityId>,
    pub can_send: bool,
}

/// A logical message at its current revision.
#[derive(Debug)]
pub struct ChatMessageView {
    pub id: EntityId,
    pub author_participant_id: EntityId,
    pub parent_message_id: Option<EntityId>,
    pub alternative_of: Option<EntityId>,
    pub revision_id: EntityId,
    pub blocks: Vec<ContentBlock>,
    pub effective_at: Option<u64>,
}

/// The whole view.
#[derive(Debug)]
pub struct ChatConversationView {
    pub conversations: Vec<ChatConversationSummary>,
    pub selected_conversation_id: Option<EntityId>,
    pub selected_leaf: Option<EntityId>,
    pub participants: Vec<ChatParticipantView>,
    pub messages: Vec<ChatMessageView>,
}

/// What an evaluation answers.
#[derive(Debug)]
pub enum ProjectionResponse {
    /// More reads are needed.
    Read { requests: Vec<ProjectionReadRequest> },
    /// The view.
    Complete { view: ChatConversationView },
    /// The input or the world state is refused.
    Rejected { reason: String },
    /// The reads are incomplete.
    Failed { reason: String },
}

/// Read result `r` answers the facet read of schema `id`, `version` on `target`.
pub open spec fn facet_read_of(r: ProjectionReadResult, target: FacetTarget, id: Seq<char>, version: u32) -> bool {
    match r {
        ProjectionReadResult::Facet { target: t, schema: s, .. } => t == target && s.id@ == id && s.version == version,
        _ => false,
    }
}

/// Read result `r` answers whether `actor` controls commands of schema `id`,
/// `version`.
pub open spec fn control_read_of(r: ProjectionReadResult, actor: EntityId, id: Seq<char>, version: u32) -> bool {
    match r {
        ProjectionReadResult::CanControl { actor_entity: a, command_schema: s, .. } => a == actor && s.id@ == id && s.version
            == version,
        _ => false,
    }
}

/// Some read answers the facet read of schema `id`, `version` on `target`.
pub open spec fn facet_answered(reads: Seq<ProjectionReadResult>, target: FacetTarget, id: Seq<char>, version: u32) -> bool {
    exists|k: int| 0 <= k < reads.len() && facet_read_of(#[trigger] reads[k], target, id, version)
}

/// Some read answers whether `actor` controls commands of schema `id`,
/// `version`.
pub open spec fn control_answered(reads: Seq<ProjectionReadResult>, actor: EntityId, id: Seq<char>, version: u32) -> bool {
    exists|k: int| 0 <= k < reads.len() && control_read_of(#[trigger] reads[k], actor, id, version)
}

/// Some read answers `q`.
pub open spec fn answered(reads: Seq<ProjectionReadResult>, q: ProjectionReadRequest) -> bool {
    match q {
        ProjectionReadRequest::Facet { target, schema } => facet_answered(reads, target, schema.id@, schema.version),
        ProjectionReadRequest::CanControl { actor_entity, command_schema } => control_answered(
            reads,
            actor_entity,
            command_schema.id@,
            command_schema.version,
        ),
    }
}

/// The first answer to whether `actor` controls commands of schema `id`,
/// `version`.
pub open spec fn control_allowed(reads: Seq<ProjectionReadResult>, actor: EntityId, id: Seq<char>, version: u32) -> Option<bool>
    decreases reads.len(),
{
    if reads.len() == 0 {
        None
    } else if control_read_of(reads[0], actor, id, version) {
        match reads[0] {
            ProjectionReadResult::CanControl { allowed, .. } => Some(allowed),
            _ => None,
        }
    } else {
        control_allowed(reads.drop_first(), actor, id, version)
    }
}

/// The value of the first read answering the facet read of schema `id`,
/// `version` on `target`: `None` where no read answers it.
pub open spec fn first_facet_value(reads: Seq<ProjectionReadResult>, target: FacetTarget, id: Seq<char>, version: u32) -> Option<
    Option<FacetPayload>,
>
    decreases reads.len(),
{
    if reads.len() == 0 {
        None
    } else if facet_read_of(reads[0], target, id, version) {
        match reads[0] {
            ProjectionReadResult::Facet { value, .. } => Some(value),
            _ => None,
        }
    } else {
        first_facet_value(reads.drop_first(), target, id, version)
    }
}

/// Index of the first read answering the facet read of `schema` on `target`.
fn find_facet(reads: &Vec<ProjectionReadResult>, target: FacetTarget, schema: &SchemaKey) -> (r: Option<usize>)
    ensures
        match r {
            Some(k) => k < reads@.len() && facet_read_of(reads@[k as int], target, schema.id@, schema.version) && first_facet_value(
                reads@,
                target,
                schema.id@,
                schema.version,
            ) == Some(reads@[k as int]->Facet_value),
            None => !facet_answered(reads@, target, schema.id@, schema.version) && first_facet_value(
                reads@,
                target,
                schema.id@,
                schema.version,
            ) is None,
        },
{
    let mut k: usize = 0;
    proof {
        assert(reads@.skip(0) =~= reads@);
    }
    while k < reads.len()
        invariant
            k <= reads@.len(),
            forall|j: int| 0 <= j < k ==> !facet_read_of(#[trigger] reads@[j], target, schema.id@, schema.version),
            first_facet_value(reads@, target, schema.id@, schema.version) == first_facet_value(
                reads@.skip(k as int),
                target,
                schema.id@,
                schema.version,
            ),
        decreases reads@.len() - k,
    {
        proof {
            assert(reads@.skip(k as int)[0] == reads@[k as int]);
            assert(reads@.skip(k as int).drop_first() =~= reads@.skip(k + 1));
        }
        let hit = match &reads[k] {
            ProjectionReadResult::Facet { target: t, schema: s, .. } => *t == target && schema_eq(s, schema),
            _ => false,
        };
        if hit {
            return Some(k);
        }
        k = k + 1;
    }
    proof {
        assert(reads@.skip(k as int).len() == 0);
    }
    None
}

/// The first answer to whether `actor` controls commands of `schema`.
fn find_control(reads: &Vec<ProjectionReadResult>, actor: EntityId, schema: &SchemaKey) -> (r: Option<bool>)
    ensures
        r == control_allowed(reads@, actor, schema.id@, schema.version),
        r is None <==> !control_answered(reads@, actor, schema.id@, schema.version),
{
    let mut k: usize = 0;
    proof {
        assert(reads@.skip(0) =~= reads@);
    }
    while k < reads.len()
        invariant
            k <= reads@.len(),
            forall|j: int| 0 <= j < k ==> !control_read_of(#[trigger] reads@[j], actor, schema.id@, schema.version),
            control_allowed(reads@, actor, schema.id@, schema.version) == control_allowed(
                reads@.skip(k as int),
                actor,
                schema.id@,
                schema.version,
            ),
        decreases reads@.len() - k,
    {
        proof {
            assert(reads@.skip(k as int)[0] == reads@[k as int]);
            assert(reads@.skip(k as int).drop_first() =~= reads@.skip(k + 1));
        }
        match &reads[k] {
            ProjectionReadResult::CanControl { actor_entity, command_schema, allowed } => {
                if *actor_entity == actor && schema_eq(command_schema, schema) {
                    return Some(*allowed);
                }
            },
            _ => {},
        }
        k = k + 1;
    }
    proof {
        assert(reads@.skip(k as int).len() == 0);
    }
    None
}

/// Why an evaluation stops early.
#[derive(Debug, Clone, Copy, PartialEq, Eq, Structural)]
pub enum ProjectionStop {
    /// The input is malformed (rejected).
    InvalidInput,
    /// Chat state is missing or inconsistent (rejected).
    MissingState,
    /// An answer the evaluation needs is not among the reads (failed).
    Transport,
}

/// The response an early stop gives.
pub open spec fn stop_response_is(stop: ProjectionStop, r: ProjectionResponse) -> bool {
    match stop {
        ProjectionStop::InvalidInput => r matches ProjectionResponse::Rejected { reason } && reason@ == DIAGNOSTIC_INVALID_INPUT@,
        ProjectionStop::MissingState => r matches ProjectionResponse::Rejected { reason } && reason@ == DIAGNOSTIC_MISSING_STATE@,
        ProjectionStop::Transport => r matches ProjectionResponse::Failed { reason } && reason@ == DIAGNOSTIC_TRANSPORT@,
    }
}

fn stop_response(stop: ProjectionStop) -> (r: ProjectionResponse)
    ensures
        stop_response_is(stop, r),
{
    match stop {
        ProjectionStop::InvalidInput => ProjectionResponse::Rejected { reason: String::from_str(DIAGNOSTIC_INVALID_INPUT) },
        ProjectionStop::MissingState => ProjectionResponse::Rejected { reason: String::from_str(DIAGNOSTIC_MISSING_STATE) },
        ProjectionStop::Transport => ProjectionResponse::Failed { reason: String::from_str(DIAGNOSTIC_TRANSPORT) },
    }
}

pub(crate) fn copy_schema(k: &SchemaKey) -> (c: SchemaKey)
    ensures
        c.id@ == k.id@,
        c.version == k.version,
{
    SchemaKey { id: k.id.clone(), version: k.version }
}

/// The payload of the facet of `schema` on `target`, if it is set.
fn facet_value<'a>(reads: &'a Vec<ProjectionReadResult>, target: FacetTarget, schema: &SchemaKey) -> (r: Result<Option<&'a FacetPayload>, ProjectionStop>)
    ensures
        match r {
            Ok(Some(p)) => first_facet_value(reads@, target, schema.id@, schema.version) == Some(Some(*p)),
            Ok(None) => first_facet_value(reads@, target, schema.id@, schema.version) == Some(None::<FacetPayload>),
            Err(e) => e == ProjectionStop::Transport && first_facet_value(reads@, target, schema.id@, schema.version) is None,
        },
{
    match find_facet(reads, target, schema) {
        None => Err(ProjectionStop::Transport),
        Some(k) => match &reads[k] {
            ProjectionReadResult::Facet { value, .. } => match value {
                Some(v) => Ok(Some(v)),
                None => Ok(None),
            },
            ProjectionReadResult::CanControl { .. } => Err(ProjectionStop::Transport),
        },
    }
}

fn conversation_facet<'a>(reads: &'a Vec<ProjectionReadResult>, id: EntityId, schema: &SchemaKey) -> (r: Result<&'a ConversationState, ProjectionStop>)
    ensures
        match first_facet_value(reads@, FacetTarget::Entity(id), schema.id@, schema.version) {
            None => r matches Err(e) && e == ProjectionStop::Transport,
            Some(Some(FacetPayload::Conversation(x))) => r matches Ok(c) && *c == x,
            Some(_) => r matches Err(e) && e == ProjectionStop::MissingState,
        },
{
    match facet_value(reads, FacetTarget::Entity(id), schema)? {
        Some(FacetPayload::Conversation(c)) => Ok(c),
        _ => Err(ProjectionStop::MissingState),
    }
}

fn participant_facet<'a>(reads: &'a Vec<ProjectionReadResult>, id: EntityId, schema: &SchemaKey) -> (r: Result<&'a ParticipantIdentity, ProjectionStop>)
    ensures
        match first_facet_value(reads@, FacetTarget::Entity(id), schema.id@, schema.version) {
            None => r matches Err(e) && e == ProjectionStop::Transport,
            Some(Some(FacetPayload::Participant(x))) => r matches Ok(p) && *p == x,
            Some(_) => r matches Err(e) && e == ProjectionStop::MissingState,
        },
{
    match facet_value(reads, FacetTarget::Entity(id), schema)? {
        Some(FacetPayload::Participant(p)) => Ok(p),
        _ => Err(ProjectionStop::MissingState),
    }
}

fn message_facet(reads: &Vec<ProjectionReadResult>, id: EntityId, schema: &SchemaKey) -> (r: Result<MessageState, ProjectionStop>)
    ensures
        match first_facet_value(reads@, FacetTarget::Entity(id), schema.id@, schema.version) {
            None => r matches Err(e) && e == ProjectionStop::Transport,
            Some(Some(FacetPayload::Message(x))) => r matches Ok(m) && m == x,
            Some(_) => r matches Err(e) && e == ProjectionStop::MissingState,
        },
{
    match facet_value(reads, FacetTarget::Entity(id), schema)? {
        Some(FacetPayload::Message(m)) => Ok(*m),
        _ => Err(ProjectionStop::MissingState),
    }
}

fn content_facet<'a>(reads: &'a Vec<ProjectionReadResult>, id: EntityId, schema: &SchemaKey) -> (r: Result<&'a MessageContent, ProjectionStop>)
    ensures
        match first_facet_value(reads@, FacetTarget::Entity(id), schema.id@, schema.version) {
            None => r matches Err(e) && e == ProjectionStop::Transport,
            Some(Some(FacetPayload::Content(x))) => r matches Ok(c) && *c == x,
            Some(_) => r matches Err(e) && e == ProjectionStop::MissingState,
        },
{
    match facet_value(reads, FacetTarget::Entity(id), schema)? {
        Some(FacetPayload::Content(c)) => Ok(c),
        _ => Err(ProjectionStop::MissingState),
    }
}

/// Adds a facet read of `schema` for each of `ids` that the reads do not
/// answer yet.
fn push_missing_facet_reads(reads: &Vec<ProjectionReadResult>, ids: &Vec<EntityId>, schema: &SchemaKey, out: &mut Vec<ProjectionReadRequest>)
    requires
        forall|k: int| 0 <= k < old(out)@.len() ==> !answered(reads@, #[trigger] old(out)@[k]),
    ensures
        forall|k: int| 0 <= k < final(out)@.len() ==> !answered(reads@, #[trigger] final(out)@[k]),
        old(out)@.len() <= final(out)@.len() <= old(out)@.len() + ids@.len(),
        final(out)@.len() == old(out)@.len() ==> forall|i: int| 0 <= i < ids@.len() ==> facet_answered(
            reads@,
            FacetTarget::Entity(#[trigger] ids@[i]),
            schema.id@,
            schema.version,
        ),
        final(out)@.len() == old(out)@.len() ==> forall|i: int| 0 <= i < ids@.len() ==> first_facet_value(
            reads@,
            FacetTarget::Entity(#[trigger] ids@[i]),
            schema.id@,
            schema.version,
        ) is Some,
        final(out)@.len() > old(out)@.len() ==> exists|i: int| 0 <= i < ids@.len() && first_facet_value(
            reads@,
            FacetTarget::Entity(#[trigger] ids@[i]),
            schema.id@,
            schema.version,
        ) is None,
{
    let ghost start = out@.len();
    let mut i: usize = 0;
    while i < ids.len()
        invariant
            i <= ids@.len(),
            start <= out@.len() <= start + i,
            forall|k: int| 0 <= k < out@.len() ==> !answered(reads@, #[trigger] out@[k]),
            out@.len() == start ==> forall|j: int| 0 <= j < i ==> facet_answered(
                reads@,
                FacetTarget::Entity(#[trigger] ids@[j]),
                schema.id@,
                schema.version,
            ),
            out@.len() == start ==> forall|j: int| 0 <= j < i ==> first_facet_value(
                reads@,
                FacetTarget::Entity(#[trigger] ids@[j]),
                schema.id@,
                schema.version,
            ) is Some,
            out@.len() > start ==> exists|j: int| 0 <= j < i && first_facet_value(
                reads@,
                FacetTarget::Entity(#[trigger] ids@[j]),
                schema.id@,
                schema.version,
            ) is None,
        decreases ids@.len() - i,
    {
        let target = FacetTarget::Entity(ids[i]);
        if find_facet(reads, target, schema).is_none() {
            let ghost before = out@;
            out.push(ProjectionReadRequest::Facet { target, schema: copy_schema(schema) });
            proof {
                assert forall|k: int| 0 <= k < out@.len() implies !answered(reads@, #[trigger] out@[k]) by {
                    if k < before.len() {
                        assert(out@[k] == before[k]);
                    }
                }
            }
        }
        i = i + 1;
    }
}

/// Inserts `id` into identifiers kept in ascending order without repeats.
fn insert_id_sorted(v: &mut Vec<EntityId>, id: EntityId)
    requires
        forall|a: int, b: int| 0 <= a < b < old(v)@.len() ==> (#[trigger] old(v)@[a]).0 < (#[trigger] old(v)@[b]).0,
    ensures
        forall|a: int, b: int| 0 <= a < b < final(v)@.len() ==> (#[trigger] final(v)@[a]).0 < (#[trigger] final(v)@[b]).0,
        final(v)@.to_set() == old(v)@.to_set().insert(id),
{
    let mut pos: usize = 0;
    while pos < v.len() && v[pos].0 < id.0
        invariant
            pos <= v@.len(),
            forall|j: int| 0 <= j < pos ==> (#[trigger] v@[j]).0 < id.0,
        decreases v@.len() - pos,
    {
        pos = pos + 1;
    }
    if pos < v.len() && v[pos].0 == id.0 {
        proof {
            assert(v@[pos as int] == id);
            assert(v@.to_set().insert(id) =~= v@.to_set());
        }
        return;
    }
    let ghost before = v@;
    v.insert(pos, id);
    proof {
        assert(v@ == before.insert(pos as int, id));
        assert forall|a: int, b: int| 0 <= a < b < v@.len() implies (#[trigger] v@[a]).0 < (#[trigger] v@[b]).0 by {
            if b < pos {
                assert(v@[a] == before[a] && v@[b] == before[b]);
            } else if b == pos {
                assert(v@[a] == before[a]);
            } else if a == pos {
                assert(v@[b] == before[b - 1]);
                if b - 1 > pos {
                    assert(before[pos as int].0 < before[b - 1].0);
                }
            } else if a < pos {
                assert(v@[a] == before[a] && v@[b] == before[b - 1]);
            } else {
                assert(v@[a] == before[a - 1] && v@[b] == before[b - 1]);
            }
        }
        assert forall|x: EntityId| #[trigger] v@.to_set().contains(x) <==> before.to_set().insert(id).contains(x) by {
            if v@.to_set().contains(x) {
                let k = choose|k: int| 0 <= k < v@.len() && v@[k] == x;
                if k < pos {
                    assert(before[k] == x);
                } else if k > pos {
                    assert(before[k - 1] == x);
                }
            }
            if before.to_set().contains(x) {
                let k = choose|k: int| 0 <= k < before.len() && before[k] == x;
                if k < pos {
                    assert(v@[k] == x);
                } else {
                    assert(v@[k + 1] == x);
                }
            }
            if x == id {
                assert(v@[pos as int] == id);
            }
        }
        assert(v@.to_set() =~= before.to_set().insert(id));
    }
}

/// Two attachments name the same asset.
pub open spec fn same_asset(a: AssetRef, b: AssetRef) -> bool {
    a.digest@ == b.digest@ && a.size == b.size && a.media_type@ == b.media_type@
}

/// Two optional texts are equal.
pub open spec fn same_optional_text(a: Option<String>, b: Option<String>) -> bool {
    match (a, b) {
        (Some(x), Some(y)) => x@ == y@,
        (None, None) => true,
        _ => false,
    }
}

/// Two content blocks are equal.
pub open spec fn same_block(a: ContentBlock, b: ContentBlock) -> bool {
    match (a, b) {
        (ContentBlock::Text { text: x }, ContentBlock::Text { text: y }) => x@ == y@,
        (ContentBlock::Markdown { markdown: x }, ContentBlock::Markdown { markdown: y }) => x@ == y@,
        (ContentBlock::ImageRef { asset: x, alt: p }, ContentBlock::ImageRef { asset: y, alt: q }) => same_asset(x, y)
            && same_optional_text(p, q),
        (ContentBlock::FileRef { asset: x, name: p }, ContentBlock::FileRef { asset: y, name: q }) => same_asset(x, y) && p@
            == q@,
        _ => false,
    }
}

/// Two block lists are equal, block by block.
pub open spec fn same_blocks(a: Seq<ContentBlock>, b: Seq<ContentBlock>) -> bool {
    a.len() == b.len() && forall|i: int| 0 <= i < a.len() ==> same_block(#[trigger] a[i], b[i])
}

pub(crate) fn copy_text(t: &Option<String>) -> (c: Option<String>)
    ensures
        same_optional_text(c, *t),
{
    match t {
        Some(x) => Some(x.clone()),
        None => None,
    }
}

fn copy_asset(a: &AssetRef) -> (c: AssetRef)
    ensures
        same_asset(c, *a),
{
    let digest = a.digest.clone();
    proof {
        assert(digest@ =~= a.digest@);
    }
    AssetRef { digest, size: a.size, media_type: a.media_type.clone() }
}

pub(crate) fn copy_blocks(blocks: &Vec<ContentBlock>) -> (r: Vec<ContentBlock>)
    ensures
        same_blocks(r@, blocks@),
{
    let mut out: Vec<ContentBlock> = Vec::new();
    let mut k: usize = 0;
    while k < blocks.len()
        invariant
            k <= blocks@.len(),
            out@.len() == k,
            forall|i: int| 0 <= i < k ==> same_block(#[trigger] out@[i], blocks@[i]),
        decreases blocks@.len() - k,
    {
        let b = match &blocks[k] {
            ContentBlock::Text { text } => ContentBlock::Text { text: text.clone() },
            ContentBlock::Markdown { markdown } => ContentBlock::Markdown { markdown: markdown.clone() },
            ContentBlock::ImageRef { asset, alt } => ContentBlock::ImageRef { asset: copy_asset(asset), alt: copy_text(alt) },
            ContentBlock::FileRef { asset, name } => ContentBlock::FileRef { asset: copy_asset(asset), name: name.clone() },
        };
        out.push(b);
        k = k + 1;
    }
    out
}

/// A reference to another message of the conversation: never the message
/// itself, always one of `ids`.
pub open spec fn ref_ok(r: Option<EntityId>, own: EntityId, ids: Seq<EntityId>) -> bool {
    r matches Some(p) ==> p != own && ids.contains(p)
}

/// The checked message states of a conversation with messages `ids` and
/// participants `participants`: one state per message, each authored by a
/// participant, each reference pointing at another message, and an
/// alternative sharing author and parent with the message it replaces.
pub open spec fn states_consistent(states: Seq<MessageState>, ids: Seq<EntityId>, participants: Seq<EntityId>) -> bool {
    &&& states.len() == ids.len()
    &&& forall|i: int| 0 <= i < states.len() ==> participants.contains(#[trigger] states[i].author_participant_id)
    &&& forall|i: int| 0 <= i < states.len() ==> ref_ok(#[trigger] states[i].parent_message_id, ids[i], ids)
    &&& forall|i: int| 0 <= i < states.len() ==> ref_ok(#[trigger] states[i].alternative_of, ids[i], ids)
    &&& forall|i: int, j: int|
        #![trigger states[i], ids[j]]
        0 <= i < states.len() && 0 <= j < ids.len() && states[i].alternative_of == Some(ids[j]) ==> states[j].author_participant_id
            == states[i].author_participant_id && states[j].parent_message_id == states[i].parent_message_id
}

/// The identifiers of listed conversations.
pub open spec fn conversation_ids_of(cs: Seq<ChatConversationSummary>) -> Seq<EntityId> {
    cs.map_values(|c: ChatConversationSummary| c.id)
}

/// The identifiers of listed participants.
pub open spec fn participant_ids_of(ps: Seq<ChatParticipantView>) -> Seq<EntityId> {
    ps.map_values(|p: ChatParticipantView| p.id)
}

/// The identifiers of listed messages.
pub open spec fn message_ids_of(ms: Seq<ChatMessageView>) -> Seq<EntityId> {
    ms.map_values(|m: ChatMessageView| m.id)
}

/// A view that holds together: no identifier listed twice; a selected
/// conversation that is listed, and no participants, messages or leaf without
/// one; a selected leaf among the messages; every author a participant; every
/// parent and alternative reference another listed message; and an
/// alternative sharing author and parent with the message it replaces.
pub open spec fn view_consistent(v: ChatConversationView) -> bool {
    let msgs = message_ids_of(v.messages@);
    let ms = v.messages@;
    &&& unique_ids(conversation_ids_of(v.conversations@))
    &&& unique_ids(participant_ids_of(v.participants@))
    &&& unique_ids(msgs)
    &&& match v.selected_conversation_id {
        Some(c) => conversation_ids_of(v.conversations@).contains(c),
        None => v.selected_leaf is None && v.participants@.len() == 0 && ms.len() == 0,
    }
    &&& v.selected_leaf matches Some(l) ==> msgs.contains(l)
    &&& forall|i: int| 0 <= i < ms.len() ==> participant_ids_of(v.participants@).contains(#[trigger] ms[i].author_participant_id)
    &&& forall|i: int| 0 <= i < ms.len() ==> ref_ok(#[trigger] ms[i].parent_message_id, ms[i].id, msgs)
    &&& forall|i: int| 0 <= i < ms.len() ==> ref_ok(#[trigger] ms[i].alternative_of, ms[i].id, msgs)
    &&& forall|i: int, j: int|
        #![trigger ms[i], ms[j]]
        0 <= i < ms.len() && 0 <= j < ms.len() && ms[i].alternative_of == Some(ms[j].id) ==> ms[j].author_participant_id
            == ms[i].author_participant_id && ms[j].parent_message_id == ms[i].parent_message_id
}

/// Every participant linked to an entity may send exactly when the first
/// answer on that entity's control of the send-message command says so.
pub open spec fn controls_match(reads: Seq<ProjectionReadResult>, ps: Seq<ChatParticipantView>) -> bool {
    forall|i: int| 0 <= i < ps.len() ==> ((#[trigger] ps[i]).linked_entity matches Some(e) ==> control_allowed(
        reads,
        e,
        SEND_MESSAGE_COMMAND@,
        1,
    ) == Some(ps[i].can_send))
}

/// What a response promises of the reads it answers: a read response asks
/// only for what is not answered yet, and a complete view holds together.
pub open spec fn response_sound(reads: Seq<ProjectionReadResult>, r: ProjectionResponse) -> bool {
    match r {
        ProjectionResponse::Read { requests } => requests@.len() > 0 && forall|k: int|
            0 <= k < requests@.len() ==> !answered(reads, #[trigger] requests@[k]),
        ProjectionResponse::Complete { view } => view_consistent(view) && controls_match(reads, view.participants@),
        _ => false,
    }
}

/// Index of `id` among `ids`.
fn index_of_id(ids: &Vec<EntityId>, id: EntityId) -> (r: Option<usize>)
    ensures
        match r {
            Some(k) => k < ids@.len() && ids@[k as int] == id,
            None => !ids@.contains(id),
        },
{
    let mut k: usize = 0;
    while k < ids.len()
        invariant
            k <= ids@.len(),
            forall|j: int| 0 <= j < k ==> ids@[j] != id,
        decreases ids@.len() - k,
    {
        if ids[k] == id {
            return Some(k);
        }
        k = k + 1;
    }
    None
}

/// Checks that `r` references another message of the conversation.
fn check_ref(r: Option<EntityId>, own: EntityId, ids: &Vec<EntityId>) -> (ok: bool)
    ensures
        ok == ref_ok(r, own, ids@),
{
    match r {
        Some(p) => p != own && contains_id(ids, p),
        None => true,
    }
}

/// The first answer on message `id`'s state is a state of conversation
/// `conversation_id` authored by one of `participants`.
pub open spec fn message_read_ok(
    reads: Seq<ProjectionReadResult>,
    id: EntityId,
    conversation_id: EntityId,
    participants: Seq<EntityId>,
    sid: Seq<char>,
    version: u32,
) -> bool {
    first_facet_value(reads, FacetTarget::Entity(id), sid, version) matches Some(Some(FacetPayload::Message(s)))
        && s.conversation_id == conversation_id && participants.contains(s.author_participant_id)
}

/// The message state a first answer holds (arbitrary where it holds none).
pub open spec fn message_payload(v: Option<Option<FacetPayload>>) -> MessageState {
    match v {
        Some(Some(FacetPayload::Message(s))) => s,
        _ => arbitrary(),
    }
}

/// The message states the first answers on `ids` hold, in order.
pub open spec fn read_states(reads: Seq<ProjectionReadResult>, ids: Seq<EntityId>, sid: Seq<char>, version: u32) -> Seq<
    MessageState,
> {
    Seq::new(ids.len(), |k: int| message_payload(first_facet_value(reads, FacetTarget::Entity(ids[k]), sid, version)))
}

/// Every message of `selected` is read as a state of the conversation by one
/// of its participants, and the states are consistent.
pub open spec fn messages_ok(
    reads: Seq<ProjectionReadResult>,
    selected: ConversationState,
    conversation_id: EntityId,
    sid: Seq<char>,
    version: u32,
) -> bool {
    &&& forall|k: int|
        0 <= k < selected.message_ids@.len() ==> message_read_ok(
            reads,
            #[trigger] selected.message_ids@[k],
            conversation_id,
            selected.participant_ids@,
            sid,
            version,
        )
    &&& states_consistent(read_states(reads, selected.message_ids@, sid, version), selected.message_ids@, selected.participant_ids@)
}

/// The first message of `selected` whose state is not read right is not
/// answered at all.
pub open spec fn first_bad_message_unread(
    reads: Seq<ProjectionReadResult>,
    selected: ConversationState,
    conversation_id: EntityId,
    sid: Seq<char>,
    version: u32,
) -> bool {
    exists|k: int|
        0 <= k < selected.message_ids@.len() && first_facet_value(
            reads,
            FacetTarget::Entity(#[trigger] selected.message_ids@[k]),
            sid,
            version,
        ) is None && forall|j: int|
            0 <= j < k ==> message_read_ok(reads, #[trigger] selected.message_ids@[j], conversation_id, selected.participant_ids@, sid, version)
}

/// Reads and checks the state of every message of the selected conversation.
fn check_messages(
    reads: &Vec<ProjectionReadResult>,
    selected: &ConversationState,
    conversation_id: EntityId,
    schema: &SchemaKey,
) -> (r: Result<Vec<MessageState>, ProjectionStop>)
    requires
        unique_ids(selected.message_ids@),
    ensures
        r matches Ok(states) ==> states_consistent(states@, selected.message_ids@, selected.participant_ids@) && forall|k: int|
            0 <= k < states@.len() ==> first_facet_value(
                reads@,
                FacetTarget::Entity(#[trigger] selected.message_ids@[k]),
                schema.id@,
                schema.version,
            ) == Some(Some(FacetPayload::Message(states@[k]))),
        r is Ok <==> messages_ok(reads@, *selected, conversation_id, schema.id@, schema.version),
        r matches Ok(states) ==> states@ == read_states(reads@, selected.message_ids@, schema.id@, schema.version),
        r matches Err(e) ==> (e == ProjectionStop::Transport || e == ProjectionStop::MissingState) && (e == ProjectionStop::Transport
            <==> first_bad_message_unread(reads@, *selected, conversation_id, schema.id@, schema.version)),
{
    let ids = &selected.message_ids;
    let mut states: Vec<MessageState> = Vec::new();
    let mut i: usize = 0;
    while i < ids.len()
        invariant
            i <= ids@.len(),
            states@.len() == i,
            forall|k: int| 0 <= k < i ==> selected.participant_ids@.contains(#[trigger] states@[k].author_participant_id),
            forall|k: int| 0 <= k < i ==> first_facet_value(
                reads@,
                FacetTarget::Entity(#[trigger] ids@[k]),
                schema.id@,
                schema.version,
            ) == Some(Some(FacetPayload::Message(states@[k]))),
            forall|k: int|
                0 <= k < i ==> message_read_ok(reads@, #[trigger] ids@[k], conversation_id, selected.participant_ids@, schema.id@, schema.version),
            ids == &selected.message_ids,
        decreases ids@.len() - i,
    {
        let state = match message_facet(reads, ids[i], schema) {
            Ok(m) => m,
            Err(e) => {
                proof {
                    assert(!message_read_ok(reads@, ids@[i as int], conversation_id, selected.participant_ids@, schema.id@, schema.version));
                    if e == ProjectionStop::MissingState {
                        assert forall|k: int|
                            0 <= k < ids@.len() && first_facet_value(reads@, FacetTarget::Entity(#[trigger] ids@[k]), schema.id@, schema.version)
                                is None implies !(forall|j: int|
                            0 <= j < k ==> message_read_ok(reads@, #[trigger] ids@[j], conversation_id, selected.participant_ids@, schema.id@, schema.version)) by {
                            if k > i {
                                assert(!message_read_ok(reads@, ids@[i as int], conversation_id, selected.participant_ids@, schema.id@, schema.version));
                            }
                        }
                    } else {
                        assert(first_facet_value(reads@, FacetTarget::Entity(ids@[i as int]), schema.id@, schema.version) is None);
                    }
                }
                return Err(e);
            },
        };
        if state.conversation_id != conversation_id || !contains_id(&selected.participant_ids, state.author_participant_id) {
            proof {
                assert(!message_read_ok(reads@, ids@[i as int], conversation_id, selected.participant_ids@, schema.id@, schema.version));
                assert forall|k: int|
                    0 <= k < ids@.len() && first_facet_value(reads@, FacetTarget::Entity(#[trigger] ids@[k]), schema.id@, schema.version)
                        is None implies !(forall|j: int|
                    0 <= j < k ==> message_read_ok(reads@, #[trigger] ids@[j], conversation_id, selected.participant_ids@, schema.id@, schema.version)) by {
                    if k > i {
                        assert(!message_read_ok(reads@, ids@[i as int], conversation_id, selected.participant_ids@, schema.id@, schema.version));
                    }
                }
            }
            return Err(ProjectionStop::MissingState);
        }
        states.push(state);
        i = i + 1;
    }
    proof {
        assert(states@ =~= read_states(reads@, ids@, schema.id@, schema.version));
        assert forall|k: int|
            0 <= k < ids@.len() && first_facet_value(reads@, FacetTarget::Entity(#[trigger] ids@[k]), schema.id@, schema.version) is None
            implies false by {
            assert(message_read_ok(reads@, ids@[k], conversation_id, selected.participant_ids@, schema.id@, schema.version));
        }
    }
    let mut j: usize = 0;
    while j < states.len()
        invariant
            unique_ids(ids@),
            states@.len() == ids@.len(),
            j <= states@.len(),
            forall|k: int| 0 <= k < states@.len() ==> selected.participant_ids@.contains(#[trigger] states@[k].author_participant_id),
            forall|k: int| 0 <= k < states@.len() ==> first_facet_value(
                reads@,
                FacetTarget::Entity(#[trigger] ids@[k]),
                schema.id@,
                schema.version,
            ) == Some(Some(FacetPayload::Message(states@[k]))),
            ids == &selected.message_ids,
            states@ == read_states(reads@, ids@, schema.id@, schema.version),
            forall|k: int|
                0 <= k < ids@.len() ==> message_read_ok(reads@, #[trigger] ids@[k], conversation_id, selected.participant_ids@, schema.id@, schema.version),
            forall|k: int|
                0 <= k < ids@.len() ==> first_facet_value(reads@, FacetTarget::Entity(#[trigger] ids@[k]), schema.id@, schema.version) is Some,
            forall|k: int| 0 <= k < j ==> ref_ok(#[trigger] states@[k].parent_message_id, ids@[k], ids@),
            forall|k: int| 0 <= k < j ==> ref_ok(#[trigger] states@[k].alternative_of, ids@[k], ids@),
            forall|k: int, m: int|
                #![trigger states@[k], ids@[m]]
                0 <= k < j && 0 <= m < ids@.len() && states@[k].alternative_of == Some(ids@[m]) ==> states@[m].author_participant_id
                    == states@[k].author_participant_id && states@[m].parent_message_id == states@[k].parent_message_id,
        decreases states@.len() - j,
    {
        let state = states[j];
        let own = ids[j];
        if !check_ref(state.parent_message_id, own, ids) || !check_ref(state.alternative_of, own, ids) {
            proof {
                assert(!states_consistent(states@, ids@, selected.participant_ids@)) by {
                    assert(states@[j as int] == state);
                }
            }
            return Err(ProjectionStop::MissingState);
        }
        match state.alternative_of {
            Some(a) => {
                let idx = match index_of_id(ids, a) {
                    Some(x) => x,
                    None => return Err(ProjectionStop::MissingState),
                };
                let source = states[idx];
                if source.author_participant_id != state.author_participant_id || source.parent_message_id != state.parent_message_id {
                    proof {
                        assert(!states_consistent(states@, ids@, selected.participant_ids@)) by {
                            assert(states@[j as int] == state && ids@[idx as int] == a && states@[idx as int] == source);
                        }
                    }
                    return Err(ProjectionStop::MissingState);
                }
                proof {
                    assert forall|m: int| 0 <= m < ids@.len() && states@[j as int].alternative_of == Some(#[trigger] ids@[m]) implies m == idx by {
                        if m != idx {
                            if m < idx {
                                assert(ids@[m] != ids@[idx as int]);
                            } else {
                                assert(ids@[idx as int] != ids@[m]);
                            }
                        }
                    }
                }
            },
            None => {},
        }
        j = j + 1;
    }
    Ok(states)
}

/// How one participant is shown to `principal`: bound to a principal, it may
/// send when that principal is the viewer; linked to an entity, it may send as
/// the first answer on that entity's control of the send-message command
/// says; uncontrolled, it may not.
pub open spec fn participant_shown(
    v: ChatParticipantView,
    identity: ParticipantIdentity,
    principal: PrincipalId,
    reads: Seq<ProjectionReadResult>,
) -> bool {
    &&& v.display_name@ == identity.display_name@
    &&& match identity.binding {
        ParticipantBinding::Principal { principal_id } => v.linked_entity is None && v.can_send == (principal_id == principal),
        ParticipantBinding::Entity { entity_id } => v.linked_entity == Some(entity_id) && control_allowed(
            reads,
            entity_id,
            SEND_MESSAGE_COMMAND@,
            1,
        ) == Some(v.can_send),
        ParticipantBinding::Uncontrolled => v.linked_entity is None && !v.can_send,
    }
}

/// A listed conversation shows the title of the first answer on its state.
pub open spec fn summary_shown(reads: Seq<ProjectionReadResult>, c: ChatConversationSummary) -> bool {
    &&& first_facet_value(reads, FacetTarget::Entity(c.id), CONVERSATION_STATE_FACET@, 1) matches Some(
        Some(FacetPayload::Conversation(state)),
    )
    &&& same_optional_text(c.title, state.title)
}

/// A participant is shown to `principal` as the first answer on its identity
/// has it.
pub open spec fn participant_read_shown(reads: Seq<ProjectionReadResult>, principal: PrincipalId, p: ChatParticipantView) -> bool {
    &&& first_facet_value(reads, FacetTarget::Entity(p.id), PARTICIPANT_IDENTITY_FACET@, 1) matches Some(
        Some(FacetPayload::Participant(identity)),
    )
    &&& participant_shown(p, identity, principal, reads)
}

/// A message is shown as the first answer on its state has it, with the
/// blocks and time of the first answer on its current revision's content.
pub open spec fn message_read_shown(reads: Seq<ProjectionReadResult>, m: ChatMessageView) -> bool {
    &&& first_facet_value(reads, FacetTarget::Entity(m.id), MESSAGE_STATE_FACET@, 1) matches Some(
        Some(FacetPayload::Message(state)),
    )
    &&& message_shown(m, state)
    &&& first_facet_value(reads, FacetTarget::Entity(m.revision_id), MESSAGE_CONTENT_FACET@, 1) matches Some(
        Some(FacetPayload::Content(content)),
    )
    &&& same_blocks(m.blocks@, content.blocks@)
    &&& m.effective_at == content.effective_at
}

/// Every entry of the view is shown as the reads have it.
pub open spec fn view_from_reads(reads: Seq<ProjectionReadResult>, principal: PrincipalId, v: ChatConversationView) -> bool {
    &&& forall|i: int| 0 <= i < v.conversations@.len() ==> summary_shown(reads, #[trigger] v.conversations@[i])
    &&& forall|i: int| 0 <= i < v.participants@.len() ==> participant_read_shown(reads, principal, #[trigger] v.participants@[i])
    &&& forall|i: int| 0 <= i < v.messages@.len() ==> message_read_shown(reads, #[trigger] v.messages@[i])
}

/// The participant views, in the order of `ids`.
fn participant_views(
    request: &ProjectionRequest,
    ids: &Vec<EntityId>,
    identities: &Vec<&ParticipantIdentity>,
    send_schema: &SchemaKey,
) -> (r: Result<Vec<ChatParticipantView>, ProjectionStop>)
    requires
        identities@.len() == ids@.len(),
        is_schema(*send_schema, SEND_MESSAGE_COMMAND@),
        forall|k: int| 0 <= k < ids@.len() ==> first_facet_value(
            request.reads@,
            FacetTarget::Entity(#[trigger] ids@[k]),
            PARTICIPANT_IDENTITY_FACET@,
            1,
        ) == Some(Some(FacetPayload::Participant(*identities@[k]))),
    ensures
        r matches Ok(ps) ==> {
            &&& participant_ids_of(ps@) == ids@
            &&& controls_match(request.reads@, ps@)
            &&& forall|i: int| 0 <= i < ps@.len() ==> participant_read_shown(request.reads@, request.principal, #[trigger] ps@[i])
        },
        r is Ok <==> forall|k: int|
            0 <= k < identities@.len() ==> ((#[trigger] identities@[k]).binding matches ParticipantBinding::Entity { entity_id }
                ==> control_answered(request.reads@, entity_id, SEND_MESSAGE_COMMAND@, 1)),
        r matches Err(e) ==> e == ProjectionStop::Transport,
{
    let mut out: Vec<ChatParticipantView> = Vec::new();
    let mut i: usize = 0;
    while i < ids.len()
        invariant
            i <= ids@.len(),
            identities@.len() == ids@.len(),
            out@.len() == i,
            is_schema(*send_schema, SEND_MESSAGE_COMMAND@),
            forall|k: int| 0 <= k < i ==> (#[trigger] out@[k]).id == ids@[k],
            controls_match(request.reads@, out@),
            forall|k: int| 0 <= k < i ==> participant_read_shown(request.reads@, request.principal, #[trigger] out@[k]),
            forall|k: int| 0 <= k < ids@.len() ==> first_facet_value(
                request.reads@,
                FacetTarget::Entity(#[trigger] ids@[k]),
                PARTICIPANT_IDENTITY_FACET@,
                1,
            ) == Some(Some(FacetPayload::Participant(*identities@[k]))),
            forall|k: int|
                0 <= k < i ==> ((#[trigger] identities@[k]).binding matches ParticipantBinding::Entity { entity_id }
                    ==> control_answered(request.reads@, entity_id, SEND_MESSAGE_COMMAND@, 1)),
        decreases ids@.len() - i,
    {
        let identity = identities[i];
        let (linked_entity, can_send) = match identity.binding {
            ParticipantBinding::Principal { principal_id } => (None, principal_id == request.principal),
            ParticipantBinding::Entity { entity_id } => match find_control(&request.reads, entity_id, send_schema) {
                Some(allowed) => (Some(entity_id), allowed),
                None => return Err(ProjectionStop::Transport),
            },
            ParticipantBinding::Uncontrolled => (None, false),
        };
        let view = ChatParticipantView { id: ids[i], display_name: identity.display_name.clone(), linked_entity, can_send };
        let ghost before = out@;
        out.push(view);
        proof {
            assert forall|k: int| 0 <= k < out@.len() implies ((#[trigger] out@[k]).linked_entity matches Some(e)
                ==> control_allowed(request.reads@, e, SEND_MESSAGE_COMMAND@, 1) == Some(out@[k].can_send)) by {
                if k < before.len() {
                    assert(out@[k] == before[k]);
                }
            }
        }
        i = i + 1;
    }
    proof {
        assert(participant_ids_of(out@) =~= ids@);
    }
    Ok(out)
}

/// Message view `m` shows message state `s` at its current revision.
pub open spec fn message_shown(m: ChatMessageView, s: MessageState) -> bool {
    &&& m.author_participant_id == s.author_participant_id
    &&& m.parent_message_id == s.parent_message_id
    &&& m.alternative_of == s.alternative_of
    &&& m.revision_id == s.current_revision
}

/// The first answer on revision `rev`'s content is content with valid blocks.
pub open spec fn content_read_ok(reads: Seq<ProjectionReadResult>, rev: EntityId, sid: Seq<char>, version: u32) -> bool {
    first_facet_value(reads, FacetTarget::Entity(rev), sid, version) matches Some(Some(FacetPayload::Content(c)))
        && crate::chat::blocks_error(c.blocks@) is None
}

/// The first state whose current revision's content is not read right has
/// no answer on that content at all.
pub open spec fn first_bad_content_unread(reads: Seq<ProjectionReadResult>, states: Seq<MessageState>, sid: Seq<char>, version: u32) -> bool {
    exists|k: int|
        0 <= k < states.len() && first_facet_value(reads, FacetTarget::Entity(#[trigger] states[k].current_revision), sid, version)
            is None && forall|j: int| 0 <= j < k ==> content_read_ok(reads, #[trigger] states[j].current_revision, sid, version)
}

/// The message views, in the order of `ids`, each with the checked content of
/// its current revision.
fn message_views(
    reads: &Vec<ProjectionReadResult>,
    ids: &Vec<EntityId>,
    states: &Vec<MessageState>,
    schema: &SchemaKey,
) -> (r: Result<Vec<ChatMessageView>, ProjectionStop>)
    requires
        states@.len() == ids@.len(),
        is_schema(*schema, MESSAGE_CONTENT_FACET@),
        forall|k: int| 0 <= k < ids@.len() ==> first_facet_value(
            reads@,
            FacetTarget::Entity(#[trigger] ids@[k]),
            MESSAGE_STATE_FACET@,
            1,
        ) == Some(Some(FacetPayload::Message(states@[k]))),
    ensures
        r matches Ok(ms) ==> message_ids_of(ms@) == ids@ && (forall|i: int|
            0 <= i < ms@.len() ==> message_shown(#[trigger] ms@[i], states@[i])) && (forall|i: int|
            0 <= i < ms@.len() ==> message_read_shown(reads@, #[trigger] ms@[i])),
        r is Ok <==> forall|k: int|
            0 <= k < states@.len() ==> content_read_ok(reads@, #[trigger] states@[k].current_revision, schema.id@, schema.version),
        r matches Err(e) ==> (e == ProjectionStop::Transport || e == ProjectionStop::MissingState) && (e == ProjectionStop::Transport
            <==> first_bad_content_unread(reads@, states@, schema.id@, schema.version)),
{
    let mut out: Vec<ChatMessageView> = Vec::new();
    let mut i: usize = 0;
    while i < ids.len()
        invariant
            i <= ids@.len(),
            states@.len() == ids@.len(),
            out@.len() == i,
            forall|k: int| 0 <= k < i ==> (#[trigger] out@[k]).id == ids@[k],
            forall|k: int| 0 <= k < i ==> message_shown(#[trigger] out@[k], states@[k]),
            forall|k: int| 0 <= k < i ==> message_read_shown(reads@, #[trigger] out@[k]),
            is_schema(*schema, MESSAGE_CONTENT_FACET@),
            forall|k: int| 0 <= k < ids@.len() ==> first_facet_value(
                reads@,
                FacetTarget::Entity(#[trigger] ids@[k]),
                MESSAGE_STATE_FACET@,
                1,
            ) == Some(Some(FacetPayload::Message(states@[k]))),
            forall|k: int| 0 <= k < i ==> content_read_ok(reads@, #[trigger] states@[k].current_revision, schema.id@, schema.version),
        decreases ids@.len() - i,
    {
        let state = states[i];
        let content = match content_facet(reads, state.current_revision, schema) {
            Ok(c) => c,
            Err(e) => {
                proof {
                    assert(!content_read_ok(reads@, states@[i as int].current_revision, schema.id@, schema.version));
                    if e == ProjectionStop::MissingState {
                        assert forall|k: int|
                            0 <= k < states@.len() && first_facet_value(
                                reads@,
                                FacetTarget::Entity(#[trigger] states@[k].current_revision),
                                schema.id@,
                                schema.version,
                            ) is None implies !(forall|j: int|
                            0 <= j < k ==> content_read_ok(reads@, #[trigger] states@[j].current_revision, schema.id@, schema.version)) by {
                            if k > i {
                                assert(!content_read_ok(reads@, states@[i as int].current_revision, schema.id@, schema.version));
                            }
                        }
                    } else {
                        assert(first_facet_value(reads@, FacetTarget::Entity(states@[i as int].current_revision), schema.id@, schema.version)
                            is None);
                    }
                }
                return Err(e);
            },
        };
        if content.validate().is_err() {
            proof {
                assert(!content_read_ok(reads@, states@[i as int].current_revision, schema.id@, schema.version));
                assert forall|k: int|
                    0 <= k < states@.len() && first_facet_value(
                        reads@,
                        FacetTarget::Entity(#[trigger] states@[k].current_revision),
                        schema.id@,
                        schema.version,
                    ) is None implies !(forall|j: int|
                    0 <= j < k ==> content_read_ok(reads@, #[trigger] states@[j].current_revision, schema.id@, schema.version)) by {
                    if k > i {
                        assert(!content_read_ok(reads@, states@[i as int].current_revision, schema.id@, schema.version));
                    }
                }
            }
            return Err(ProjectionStop::MissingState);
        }
        out.push(
            ChatMessageView {
                id: ids[i],
                author_participant_id: state.author_participant_id,
                parent_message_id: state.parent_message_id,
                alternative_of: state.alternative_of,
                revision_id: state.current_revision,
                blocks: copy_blocks(&content.blocks),
                effective_at: content.effective_at,
            },
        );
        i = i + 1;
    }
    proof {
        assert(message_ids_of(out@) =~= ids@);
    }
    Ok(out)
}

/// The first answer on participant `id`'s identity is an identity.
pub open spec fn participant_read_ok(reads: Seq<ProjectionReadResult>, id: EntityId) -> bool {
    first_facet_value(reads, FacetTarget::Entity(id), PARTICIPANT_IDENTITY_FACET@, 1) matches Some(
        Some(FacetPayload::Participant(_)),
    )
}

/// Every participant linked to an entity has that entity's control of the
/// send-message command answered.
pub open spec fn controls_read(reads: Seq<ProjectionReadResult>, ids: Seq<EntityId>) -> bool {
    forall|k: int|
        0 <= k < ids.len() ==> (first_facet_value(reads, FacetTarget::Entity(#[trigger] ids[k]), PARTICIPANT_IDENTITY_FACET@, 1) matches Some(
            Some(FacetPayload::Participant(p)),
        ) && p.binding matches ParticipantBinding::Entity { entity_id } ==> control_answered(reads, entity_id, SEND_MESSAGE_COMMAND@, 1))
}

/// The selected conversation is refused: all its participant and message
/// states are answered, and a participant's identity is not one, the
/// messages are not consistent, or (all controls and current contents
/// answered) a current content is not valid.
pub open spec fn conversation_refused(reads: Seq<ProjectionReadResult>, selected: ConversationState, conversation_id: EntityId) -> bool {
    let pids = selected.participant_ids@;
    let mids = selected.message_ids@;
    let states = read_states(reads, mids, MESSAGE_STATE_FACET@, 1);
    &&& forall|k: int|
        0 <= k < pids.len() ==> first_facet_value(reads, FacetTarget::Entity(#[trigger] pids[k]), PARTICIPANT_IDENTITY_FACET@, 1) is Some
    &&& forall|k: int| 0 <= k < mids.len() ==> first_facet_value(reads, FacetTarget::Entity(#[trigger] mids[k]), MESSAGE_STATE_FACET@, 1) is Some
    &&& {
        ||| exists|k: int| 0 <= k < pids.len() && !participant_read_ok(reads, #[trigger] pids[k])
        ||| !messages_ok(reads, selected, conversation_id, MESSAGE_STATE_FACET@, 1)
        ||| {
            &&& controls_read(reads, pids)
            &&& forall|k: int|
                0 <= k < states.len() ==> first_facet_value(
                    reads,
                    FacetTarget::Entity(#[trigger] states[k].current_revision),
                    MESSAGE_CONTENT_FACET@,
                    1,
                ) is Some
            &&& exists|k: int| 0 <= k < states.len() && !content_read_ok(reads, #[trigger] states[k].current_revision, MESSAGE_CONTENT_FACET@, 1)
        }
    }
}

/// Every read the selected conversation needs is answered: its participant
/// and message states and, once those read right, its participants' send
/// controls and its messages' current contents.
pub open spec fn conversation_fully_read(reads: Seq<ProjectionReadResult>, selected: ConversationState, conversation_id: EntityId) -> bool {
    let pids = selected.participant_ids@;
    let mids = selected.message_ids@;
    let states = read_states(reads, mids, MESSAGE_STATE_FACET@, 1);
    &&& forall|k: int|
        0 <= k < pids.len() ==> first_facet_value(reads, FacetTarget::Entity(#[trigger] pids[k]), PARTICIPANT_IDENTITY_FACET@, 1) is Some
    &&& forall|k: int| 0 <= k < mids.len() ==> first_facet_value(reads, FacetTarget::Entity(#[trigger] mids[k]), MESSAGE_STATE_FACET@, 1) is Some
    &&& (forall|k: int| 0 <= k < pids.len() ==> participant_read_ok(reads, #[trigger] pids[k])) && messages_ok(
        reads,
        selected,
        conversation_id,
        MESSAGE_STATE_FACET@,
        1,
    ) ==> {
        &&& controls_read(reads, pids)
        &&& forall|k: int|
            0 <= k < states.len() ==> first_facet_value(
                reads,
                FacetTarget::Entity(#[trigger] states[k].current_revision),
                MESSAGE_CONTENT_FACET@,
                1,
            ) is Some
    }
}

/// The selected conversation's part of an evaluation: the reads its
/// participants, messages, controls and contents still need, or its view.
#[verifier::rlimit(40)]
#[verifier::spinoff_prover]
fn evaluate_conversation(
    request: &ProjectionRequest,
    conversations: Vec<ChatConversationSummary>,
    conversation_id: EntityId,
    selected: &ConversationState,
) -> (r: Result<ProjectionResponse, ProjectionStop>)
    requires
        conversation_error(*selected) is None,
        unique_ids(conversation_ids_of(conversations@)),
        conversation_ids_of(conversations@).contains(conversation_id),
        forall|i: int| 0 <= i < conversations@.len() ==> summary_shown(request.reads@, #[trigger] conversations@[i]),
    ensures
        r matches Ok(resp) ==> response_sound(request.reads@, resp),
        r matches Ok(ProjectionResponse::Complete { view }) ==> {
            &&& view.conversations@ == conversations@
            &&& view.selected_conversation_id == Some(conversation_id)
            &&& view.selected_leaf == selected.selected_leaf
            &&& participant_ids_of(view.participants@) == selected.participant_ids@
            &&& message_ids_of(view.messages@) == selected.message_ids@
            &&& view_from_reads(request.reads@, request.principal, view)
        },
        r is Err <==> conversation_refused(request.reads@, *selected, conversation_id),
        r matches Err(e) ==> e == ProjectionStop::MissingState,
        r matches Ok(ProjectionResponse::Read { .. }) <==> !conversation_fully_read(request.reads@, *selected, conversation_id),
        r is Ok ==> r matches Ok(ProjectionResponse::Read { .. }) || r matches Ok(ProjectionResponse::Complete { .. }),
{
    let reads = &request.reads;
    let participant_schema = chat_schema(PARTICIPANT_IDENTITY_FACET);
    let message_schema = chat_schema(MESSAGE_STATE_FACET);
    let mut requests: Vec<ProjectionReadRequest> = Vec::new();
    push_missing_facet_reads(reads, &selected.participant_ids, &participant_schema, &mut requests);
    let ghost after_participants = requests@.len();
    push_missing_facet_reads(reads, &selected.message_ids, &message_schema, &mut requests);
    if requests.len() > 0 {
        proof {
            if after_participants > 0 {
                let k = choose|k: int|
                    0 <= k < selected.participant_ids@.len() && first_facet_value(
                        reads@,
                        FacetTarget::Entity(#[trigger] selected.participant_ids@[k]),
                        PARTICIPANT_IDENTITY_FACET@,
                        1,
                    ) is None;
                assert(!conversation_refused(request.reads@, *selected, conversation_id));
            } else {
                let k = choose|k: int|
                    0 <= k < selected.message_ids@.len() && first_facet_value(
                        reads@,
                        FacetTarget::Entity(#[trigger] selected.message_ids@[k]),
                        MESSAGE_STATE_FACET@,
                        1,
                    ) is None;
                assert(!conversation_refused(request.reads@, *selected, conversation_id));
            }
        }
        return Ok(ProjectionResponse::Read { requests });
    }
    let send_schema = chat_schema(SEND_MESSAGE_COMMAND);
    let mut identities: Vec<&ParticipantIdentity> = Vec::new();
    let mut i: usize = 0;
    while i < selected.participant_ids.len()
        invariant
            i <= selected.participant_ids@.len(),
            identities@.len() == i,
            forall|k: int| 0 <= k < requests@.len() ==> !answered(reads@, #[trigger] requests@[k]),
            reads@ == request.reads@,
            participant_schema.id@ == PARTICIPANT_IDENTITY_FACET@ && participant_schema.version == 1,
            forall|k: int| 0 <= k < i ==> first_facet_value(
                request.reads@,
                FacetTarget::Entity(#[trigger] selected.participant_ids@[k]),
                PARTICIPANT_IDENTITY_FACET@,
                1,
            ) == Some(Some(FacetPayload::Participant(*identities@[k]))),
            forall|k: int|
                0 <= k < selected.participant_ids@.len() ==> first_facet_value(
                    reads@,
                    FacetTarget::Entity(#[trigger] selected.participant_ids@[k]),
                    PARTICIPANT_IDENTITY_FACET@,
                    1,
                ) is Some,
            forall|k: int|
                0 <= k < selected.message_ids@.len() ==> first_facet_value(
                    reads@,
                    FacetTarget::Entity(#[trigger] selected.message_ids@[k]),
                    MESSAGE_STATE_FACET@,
                    1,
                ) is Some,
            is_schema(send_schema, SEND_MESSAGE_COMMAND@),
            requests@.len() == 0 <==> forall|k: int|
                0 <= k < i ==> ((#[trigger] identities@[k]).binding matches ParticipantBinding::Entity { entity_id }
                    ==> control_answered(request.reads@, entity_id, SEND_MESSAGE_COMMAND@, 1)),
        decreases selected.participant_ids@.len() - i,
    {
        let identity = match participant_facet(reads, selected.participant_ids[i], &participant_schema) {
            Ok(x) => x,
            Err(e) => {
                proof {
                    assert(!participant_read_ok(reads@, selected.participant_ids@[i as int]));
                    assert(conversation_refused(request.reads@, *selected, conversation_id));
                }
                return Err(e);
            },
        };
        let ghost before_identity = requests@.len();
        match identity.binding {
            ParticipantBinding::Entity { entity_id } => {
                if find_control(reads, entity_id, &send_schema).is_none() {
                    let ghost before = requests@;
                    requests.push(ProjectionReadRequest::CanControl { actor_entity: entity_id, command_schema: copy_schema(&send_schema) });
                    proof {
                        assert forall|k: int| 0 <= k < requests@.len() implies !answered(reads@, #[trigger] requests@[k]) by {
                            if k < before.len() {
                                assert(requests@[k] == before[k]);
                            }
                        }
                    }
                }
            },
            _ => {},
        }
        proof {
            assert(requests@.len() == 0 <==> (before_identity == 0 && (identity.binding matches ParticipantBinding::Entity { entity_id }
                ==> control_answered(request.reads@, entity_id, SEND_MESSAGE_COMMAND@, 1))));
        }
        let ghost before_push = identities@;
        identities.push(identity);
        proof {
            assert forall|k: int| 0 <= k < i ==> identities@[k] == before_push[k] by {}
            assert(identities@[i as int] == identity);
            assert((forall|k: int|
                0 <= k < i + 1 ==> ((#[trigger] identities@[k]).binding matches ParticipantBinding::Entity { entity_id }
                    ==> control_answered(request.reads@, entity_id, SEND_MESSAGE_COMMAND@, 1))) <==> ((forall|k: int|
                0 <= k < i ==> ((#[trigger] before_push[k]).binding matches ParticipantBinding::Entity { entity_id }
                    ==> control_answered(request.reads@, entity_id, SEND_MESSAGE_COMMAND@, 1))) && (identity.binding matches ParticipantBinding::Entity {
                entity_id,
            } ==> control_answered(request.reads@, entity_id, SEND_MESSAGE_COMMAND@, 1)))) by {
                assert forall|k: int| 0 <= k < i implies #[trigger] identities@[k] == before_push[k] by {}
            }
        }
        i = i + 1;
    }
    proof {
        assert forall|k: int| 0 <= k < selected.participant_ids@.len() implies participant_read_ok(
            reads@,
            #[trigger] selected.participant_ids@[k],
        ) by {
            assert(first_facet_value(
                request.reads@,
                FacetTarget::Entity(selected.participant_ids@[k]),
                PARTICIPANT_IDENTITY_FACET@,
                1,
            ) == Some(Some(FacetPayload::Participant(*identities@[k]))));
        }
        assert(requests@.len() == 0 <==> controls_read(reads@, selected.participant_ids@)) by {
            if requests@.len() == 0 {
                assert forall|k: int|
                    0 <= k < selected.participant_ids@.len() implies (first_facet_value(
                    reads@,
                    FacetTarget::Entity(#[trigger] selected.participant_ids@[k]),
                    PARTICIPANT_IDENTITY_FACET@,
                    1,
                ) matches Some(Some(FacetPayload::Participant(p))) && p.binding matches ParticipantBinding::Entity { entity_id }
                    ==> control_answered(reads@, entity_id, SEND_MESSAGE_COMMAND@, 1)) by {
                    assert(first_facet_value(
                        request.reads@,
                        FacetTarget::Entity(selected.participant_ids@[k]),
                        PARTICIPANT_IDENTITY_FACET@,
                        1,
                    ) == Some(Some(FacetPayload::Participant(*identities@[k]))));
                    assert(identities@[k].binding matches ParticipantBinding::Entity { entity_id } ==> control_answered(
                        request.reads@,
                        entity_id,
                        SEND_MESSAGE_COMMAND@,
                        1,
                    ));
                }
            } else {
                let k = choose|k: int|
                    0 <= k < selected.participant_ids@.len() && !((#[trigger] identities@[k]).binding matches ParticipantBinding::Entity {
                        entity_id,
                    } ==> control_answered(request.reads@, entity_id, SEND_MESSAGE_COMMAND@, 1));
                assert(first_facet_value(
                    request.reads@,
                    FacetTarget::Entity(selected.participant_ids@[k]),
                    PARTICIPANT_IDENTITY_FACET@,
                    1,
                ) == Some(Some(FacetPayload::Participant(*identities@[k]))));
            }
        }
    }
    let states = match check_messages(reads, selected, conversation_id, &message_schema) {
        Ok(x) => x,
        Err(e) => {
            proof {
                if first_bad_message_unread(reads@, *selected, conversation_id, MESSAGE_STATE_FACET@, 1) {
                    let k = choose|k: int|
                        0 <= k < selected.message_ids@.len() && first_facet_value(
                            reads@,
                            FacetTarget::Entity(#[trigger] selected.message_ids@[k]),
                            MESSAGE_STATE_FACET@,
                            1,
                        ) is None && forall|j: int|
                            0 <= j < k ==> message_read_ok(
                                reads@,
                                #[trigger] selected.message_ids@[j],
                                conversation_id,
                                selected.participant_ids@,
                                MESSAGE_STATE_FACET@,
                                1,
                            );
                    assert(false);
                }
            }
            return Err(e);
        },
    };
    let ghost rs = read_states(reads@, selected.message_ids@, MESSAGE_STATE_FACET@, 1);
    let mut revisions: Vec<EntityId> = Vec::new();
    let mut j: usize = 0;
    while j < states.len()
        invariant
            j <= states@.len(),
            forall|a: int, b: int| 0 <= a < b < revisions@.len() ==> (#[trigger] revisions@[a]).0 < (#[trigger] revisions@[b]).0,
            forall|k: int| 0 <= k < j ==> revisions@.contains(#[trigger] states@[k].current_revision),
            forall|x: int| 0 <= x < revisions@.len() ==> exists|k: int| 0 <= k < j && #[trigger] revisions@[x] == states@[k].current_revision,
        decreases states@.len() - j,
    {
        let ghost before = revisions@;
        insert_id_sorted(&mut revisions, states[j].current_revision);
        proof {
            assert(revisions@.to_set().contains(states@[j as int].current_revision));
            assert forall|k: int| 0 <= k < j + 1 implies revisions@.contains(#[trigger] states@[k].current_revision) by {
                if k < j {
                    assert(before.contains(states@[k].current_revision));
                    assert(before.to_set().contains(states@[k].current_revision));
                    assert(revisions@.to_set().contains(states@[k].current_revision));
                }
            }
            assert forall|x: int| 0 <= x < revisions@.len() implies exists|k: int|
                0 <= k < j + 1 && #[trigger] revisions@[x] == states@[k].current_revision by {
                assert(revisions@.to_set().contains(revisions@[x]));
                if revisions@[x] != states@[j as int].current_revision {
                    assert(before.to_set().contains(revisions@[x]));
                    let y = choose|y: int| 0 <= y < before.len() && before[y] == revisions@[x];
                    assert(before[y] == revisions@[x]);
                }
            }
        }
        j = j + 1;
    }
    let content_schema = chat_schema(MESSAGE_CONTENT_FACET);
    let ghost before_contents = requests@.len();
    push_missing_facet_reads(reads, &revisions, &content_schema, &mut requests);
    proof {
        assert(requests@.len() == 0 <==> (before_contents == 0 && forall|x: int|
            0 <= x < revisions@.len() ==> first_facet_value(reads@, FacetTarget::Entity(#[trigger] revisions@[x]), MESSAGE_CONTENT_FACET@, 1)
                is Some));
        assert((forall|x: int|
            0 <= x < revisions@.len() ==> first_facet_value(reads@, FacetTarget::Entity(#[trigger] revisions@[x]), MESSAGE_CONTENT_FACET@, 1)
                is Some) <==> (forall|k: int|
            0 <= k < states@.len() ==> first_facet_value(
                reads@,
                FacetTarget::Entity(#[trigger] states@[k].current_revision),
                MESSAGE_CONTENT_FACET@,
                1,
            ) is Some)) by {
            assert forall|k: int| 0 <= k < states@.len() implies exists|x: int|
                0 <= x < revisions@.len() && #[trigger] revisions@[x] == (#[trigger] states@[k]).current_revision by {
                assert(revisions@.contains(states@[k].current_revision));
            }
        }
    }
    if requests.len() > 0 {
        return Ok(ProjectionResponse::Read { requests });
    }
    let participants = match participant_views(request, &selected.participant_ids, &identities, &send_schema) {
        Ok(x) => x,
        Err(e) => {
            return Err(e);
        },
    };
    let messages = match message_views(reads, &selected.message_ids, &states, &content_schema) {
        Ok(x) => x,
        Err(e) => {
            proof {
                if first_bad_content_unread(reads@, states@, MESSAGE_CONTENT_FACET@, 1) {
                    let k = choose|k: int|
                        0 <= k < states@.len() && first_facet_value(
                            reads@,
                            FacetTarget::Entity(#[trigger] states@[k].current_revision),
                            MESSAGE_CONTENT_FACET@,
                            1,
                        ) is None && forall|j: int|
                            0 <= j < k ==> content_read_ok(reads@, #[trigger] states@[j].current_revision, MESSAGE_CONTENT_FACET@, 1);
                    assert(false);
                }
                assert(conversation_refused(request.reads@, *selected, conversation_id));
            }
            return Err(e);
        },
    };
    let view = ChatConversationView {
        conversations,
        selected_conversation_id: Some(conversation_id),
        selected_leaf: selected.selected_leaf,
        participants,
        messages,
    };
    proof {
        let ms = view.messages@;
        let ids = selected.message_ids@;
        assert(message_ids_of(ms) == ids);
        assert(participant_ids_of(view.participants@) == selected.participant_ids@);
        assert forall|x: int| 0 <= x < ms.len() implies #[trigger] ms[x].id == ids[x] by {
            assert(message_ids_of(ms)[x] == ms[x].id);
        }
        assert forall|x: int| 0 <= x < ms.len() implies participant_ids_of(view.participants@).contains(
            #[trigger] ms[x].author_participant_id,
        ) by {
            assert(message_shown(ms[x], states@[x]));
        }
        assert forall|x: int| 0 <= x < ms.len() implies ref_ok(#[trigger] ms[x].parent_message_id, ms[x].id, message_ids_of(ms)) by {
            assert(message_shown(ms[x], states@[x]));
            assert(ref_ok(states@[x].parent_message_id, ids[x], ids));
        }
        assert forall|x: int| 0 <= x < ms.len() implies ref_ok(#[trigger] ms[x].alternative_of, ms[x].id, message_ids_of(ms)) by {
            assert(message_shown(ms[x], states@[x]));
            assert(ref_ok(states@[x].alternative_of, ids[x], ids));
        }
        assert forall|x: int, y: int|
            #![trigger ms[x], ms[y]]
            0 <= x < ms.len() && 0 <= y < ms.len() && ms[x].alternative_of == Some(ms[y].id) implies ms[y].author_participant_id
                == ms[x].author_participant_id && ms[y].parent_message_id == ms[x].parent_message_id by {
            assert(message_shown(ms[x], states@[x]));
            assert(message_shown(ms[y], states@[y]));
            assert(ms[y].id == ids[y]);
            assert(states@[x].alternative_of == Some(ids[y]));
        }
    }
    Ok(ProjectionResponse::Complete { view })
}

/// The conversations the world's chat index lists, by the first answer on
/// it; none where the index facet is not set.
pub open spec fn indexed_conversations(reads: Seq<ProjectionReadResult>) -> Seq<EntityId> {
    match first_facet_value(reads, FacetTarget::World, CHAT_WORLD_INDEX_FACET@, 1) {
        Some(Some(FacetPayload::WorldIndex(index))) => index.conversations@,
        _ => Seq::empty(),
    }
}

/// The first answer on the world's chat index holds something other than a
/// valid index: another payload, more than 32 conversations, or one twice.
pub open spec fn index_refused(reads: Seq<ProjectionReadResult>) -> bool {
    match first_facet_value(reads, FacetTarget::World, CHAT_WORLD_INDEX_FACET@, 1) {
        Some(Some(FacetPayload::WorldIndex(index))) => index.conversations@.len() > MAX_CHAT_CONVERSATIONS || !unique_ids(
            index.conversations@,
        ),
        Some(Some(_)) => true,
        _ => false,
    }
}

/// The conversation `input` selects among `ids`: the one it names, or else
/// the newest.
pub open spec fn selected_of(input: ChatProjectionInput, ids: Seq<EntityId>) -> Option<EntityId> {
    match input.conversation_id {
        Some(c) => Some(c),
        None => if ids.len() > 0 {
            Some(ids.last())
        } else {
            None
        },
    }
}

/// The request names the conversation view's schema and its input decoded.
pub open spec fn request_valid(request: ProjectionRequest) -> bool {
    is_schema(request.projection_schema, CONVERSATION_PROJECTION@) && request.input is Some
}

/// A complete view shows the selected conversation as its first state answer
/// has it: its leaf, its participants and its messages, in order.
pub open spec fn shows_selected(reads: Seq<ProjectionReadResult>, v: ChatConversationView) -> bool {
    v.selected_conversation_id matches Some(c) ==> (first_facet_value(
        reads,
        FacetTarget::Entity(c),
        CONVERSATION_STATE_FACET@,
        1,
    ) matches Some(Some(FacetPayload::Conversation(state))) && v.selected_leaf == state.selected_leaf && participant_ids_of(
        v.participants@,
    ) == state.participant_ids@ && message_ids_of(v.messages@) == state.message_ids@)
}

/// The input names no conversation, or one the index lists.
pub open spec fn names_indexed(request: ProjectionRequest) -> bool {
    request.input.unwrap().conversation_id matches Some(c) ==> indexed_conversations(request.reads@).contains(c)
}

/// Some indexed conversation's state is not answered yet.
pub open spec fn conversation_state_unread(reads: Seq<ProjectionReadResult>) -> bool {
    exists|k: int|
        0 <= k < indexed_conversations(reads).len() && !facet_answered(
            reads,
            FacetTarget::Entity(#[trigger] indexed_conversations(reads)[k]),
            CONVERSATION_STATE_FACET@,
            1,
        )
}

/// Every indexed conversation's first state answer is a valid state.
pub open spec fn indexed_states_ok(reads: Seq<ProjectionReadResult>) -> bool {
    forall|k: int|
        0 <= k < indexed_conversations(reads).len() ==> (first_facet_value(
            reads,
            FacetTarget::Entity(#[trigger] indexed_conversations(reads)[k]),
            CONVERSATION_STATE_FACET@,
            1,
        ) matches Some(Some(FacetPayload::Conversation(c))) && conversation_error(c) is None)
}

/// The conversation state the first answer on `id` holds (arbitrary where it
/// holds none).
pub open spec fn state_of(reads: Seq<ProjectionReadResult>, id: EntityId) -> ConversationState {
    match first_facet_value(reads, FacetTarget::Entity(id), CONVERSATION_STATE_FACET@, 1) {
        Some(Some(FacetPayload::Conversation(c))) => c,
        _ => arbitrary(),
    }
}

proof fn lemma_answered_first(reads: Seq<ProjectionReadResult>, target: FacetTarget, id: Seq<char>, version: u32)
    requires
        facet_answered(reads, target, id, version),
    ensures
        first_facet_value(reads, target, id, version) is Some,
    decreases reads.len(),
{
    if !facet_read_of(reads[0], target, id, version) {
        let k = choose|k: int| 0 <= k < reads.len() && facet_read_of(#[trigger] reads[k], target, id, version);
        assert(reads.drop_first()[k - 1] == reads[k]);
        lemma_answered_first(reads.drop_first(), target, id, version);
    }
}

/// The one read asked before anything else: the world's chat index.
pub open spec fn asks_world_index(requests: Seq<ProjectionReadRequest>) -> bool {
    &&& requests.len() == 1
    &&& requests[0] matches ProjectionReadRequest::Facet { target, schema }
    &&& target == FacetTarget::World
    &&& is_schema(schema, CHAT_WORLD_INDEX_FACET@)
}

/// The world's chat index, if its facet is set.
fn world_index_of<'a>(reads: &'a Vec<ProjectionReadResult>, schema: &SchemaKey) -> (r: Result<Option<&'a ChatWorldIndex>, ProjectionStop>)
    ensures
        match first_facet_value(reads@, FacetTarget::World, schema.id@, schema.version) {
            None => r == Err::<Option<&ChatWorldIndex>, ProjectionStop>(ProjectionStop::Transport),
            Some(None) => r matches Ok(None),
            Some(Some(FacetPayload::WorldIndex(index))) => r matches Ok(Some(x)) && *x == index,
            Some(Some(_)) => r == Err::<Option<&ChatWorldIndex>, ProjectionStop>(ProjectionStop::MissingState),
        },
{
    match facet_value(reads, FacetTarget::World, schema)? {
        None => Ok(None),
        Some(FacetPayload::WorldIndex(index)) => Ok(Some(index)),
        Some(_) => Err(ProjectionStop::MissingState),
    }
}

/// One evaluation, stopping early with the reason where the input or the
/// world state is refused or the reads lack an answer.
#[verifier::rlimit(40)]
#[verifier::spinoff_prover]
fn evaluate(request: &ProjectionRequest) -> (r: Result<ProjectionResponse, ProjectionStop>)
    ensures
        !is_schema(request.projection_schema, CONVERSATION_PROJECTION@) || request.input is None ==> r
            == Err::<ProjectionResponse, ProjectionStop>(ProjectionStop::InvalidInput),
        is_schema(request.projection_schema, CONVERSATION_PROJECTION@) && request.input is Some && !facet_answered(
            request.reads@,
            FacetTarget::World,
            CHAT_WORLD_INDEX_FACET@,
            1,
        ) ==> (r matches Ok(ProjectionResponse::Read { requests }) && asks_world_index(requests@)),
        r matches Ok(resp) ==> response_sound(request.reads@, resp),
        request_valid(*request) && facet_answered(request.reads@, FacetTarget::World, CHAT_WORLD_INDEX_FACET@, 1) ==> {
            &&& index_refused(request.reads@) ==> r == Err::<ProjectionResponse, ProjectionStop>(ProjectionStop::MissingState)
            &&& (request.input.unwrap().conversation_id matches Some(c) && !index_refused(request.reads@)
                && !indexed_conversations(request.reads@).contains(c)) ==> r == Err::<ProjectionResponse, ProjectionStop>(
                ProjectionStop::MissingState,
            )
            &&& !index_refused(request.reads@) && indexed_conversations(request.reads@).len() == 0
                && request.input.unwrap().conversation_id is None ==> (r matches Ok(ProjectionResponse::Complete { view })
                && view.conversations@.len() == 0 && view.selected_conversation_id is None)
            &&& !index_refused(request.reads@) && names_indexed(*request) && conversation_state_unread(request.reads@) ==> (r matches Ok(
                ProjectionResponse::Read { .. },
            ))
            &&& !index_refused(request.reads@) && names_indexed(*request) && !conversation_state_unread(request.reads@) ==> {
                &&& !indexed_states_ok(request.reads@) ==> r == Err::<ProjectionResponse, ProjectionStop>(ProjectionStop::MissingState)
                &&& indexed_states_ok(request.reads@) ==> match selected_of(request.input.unwrap(), indexed_conversations(request.reads@)) {
                    None => r matches Ok(ProjectionResponse::Complete { .. }),
                    Some(c) => (r is Err <==> conversation_refused(request.reads@, state_of(request.reads@, c), c)) && (r matches Err(e)
                        ==> e == ProjectionStop::MissingState) && (r matches Ok(ProjectionResponse::Read { .. })
                        <==> !conversation_fully_read(request.reads@, state_of(request.reads@, c), c)) && (r is Ok ==> (r matches Ok(
                        ProjectionResponse::Read { .. },
                    ) || r matches Ok(ProjectionResponse::Complete { .. }))),
                }
            }
        },
        r matches Ok(ProjectionResponse::Complete { view }) ==> {
            &&& conversation_ids_of(view.conversations@) == indexed_conversations(request.reads@)
            &&& view.selected_conversation_id == selected_of(request.input.unwrap(), indexed_conversations(request.reads@))
            &&& shows_selected(request.reads@, view)
            &&& view_from_reads(request.reads@, request.principal, view)
        },
{
    let projection = chat_schema(CONVERSATION_PROJECTION);
    if !schema_eq(&request.projection_schema, &projection) {
        return Err(ProjectionStop::InvalidInput);
    }
    let input = match request.input {
        Some(input) => input,
        None => return Err(ProjectionStop::InvalidInput),
    };
    let reads = &request.reads;
    let index_schema = chat_schema(CHAT_WORLD_INDEX_FACET);
    if find_facet(reads, FacetTarget::World, &index_schema).is_none() {
        let mut requests: Vec<ProjectionReadRequest> = Vec::new();
        requests.push(ProjectionReadRequest::Facet { target: FacetTarget::World, schema: index_schema });
        return Ok(ProjectionResponse::Read { requests });
    }
    let empty: Vec<EntityId> = Vec::new();
    let conversation_ids: &Vec<EntityId> = match world_index_of(reads, &index_schema)? {
        Some(index) => {
            if index.validate().is_err() {
                return Err(ProjectionStop::MissingState);
            }
            &index.conversations
        },
        None => &empty,
    };
    let selected_id: Option<EntityId> = match input.conversation_id {
        Some(id) => {
            if !contains_id(conversation_ids, id) {
                return Err(ProjectionStop::MissingState);
            }
            Some(id)
        },
        None => {
            if conversation_ids.len() > 0 {
                Some(conversation_ids[conversation_ids.len() - 1])
            } else {
                None
            }
        },
    };
    let conversation_schema = chat_schema(CONVERSATION_STATE_FACET);
    let mut requests: Vec<ProjectionReadRequest> = Vec::new();
    push_missing_facet_reads(reads, conversation_ids, &conversation_schema, &mut requests);
    if requests.len() > 0 {
        proof {
            let k = choose|k: int|
                0 <= k < conversation_ids@.len() && first_facet_value(
                    reads@,
                    FacetTarget::Entity(#[trigger] conversation_ids@[k]),
                    CONVERSATION_STATE_FACET@,
                    1,
                ) is None;
            if facet_answered(request.reads@, FacetTarget::Entity(conversation_ids@[k]), CONVERSATION_STATE_FACET@, 1) {
                lemma_answered_first(request.reads@, FacetTarget::Entity(conversation_ids@[k]), CONVERSATION_STATE_FACET@, 1);
            }
            if !index_refused(request.reads@) {
                assert(conversation_ids@ == indexed_conversations(request.reads@));
                assert(indexed_conversations(request.reads@)[k] == conversation_ids@[k]);
                assert(conversation_state_unread(request.reads@));
            }
        }
        return Ok(ProjectionResponse::Read { requests });
    }
    proof {
        assert forall|k: int| 0 <= k < indexed_conversations(request.reads@).len() implies facet_answered(
            request.reads@,
            FacetTarget::Entity(#[trigger] indexed_conversations(request.reads@)[k]),
            CONVERSATION_STATE_FACET@,
            1,
        ) by {
            assert(conversation_ids@[k] == indexed_conversations(request.reads@)[k]);
        }
    }
    let mut conversations: Vec<ChatConversationSummary> = Vec::new();
    let mut selected: Option<&ConversationState> = None;
    let mut i: usize = 0;
    while i < conversation_ids.len()
        invariant
            i <= conversation_ids@.len(),
            conversations@.len() == i,
            forall|k: int| 0 <= k < i ==> (#[trigger] conversations@[k]).id == conversation_ids@[k],
            selected matches Some(state) ==> conversation_error(*state) is None,
            selected matches Some(state) ==> (selected_id matches Some(sid)
                && first_facet_value(request.reads@, FacetTarget::Entity(sid), CONVERSATION_STATE_FACET@, 1) == Some(
                Some(FacetPayload::Conversation(*state)),
            )),
            conversation_schema.id@ == CONVERSATION_STATE_FACET@ && conversation_schema.version == 1,
            reads@ == request.reads@,
            forall|k: int| 0 <= k < i ==> summary_shown(request.reads@, #[trigger] conversations@[k]),
            !conversation_state_unread(request.reads@),
            conversation_ids@ == indexed_conversations(request.reads@),
            !index_refused(request.reads@),
            request.input == Some(input),
            selected_id == selected_of(input, conversation_ids@),
            input.conversation_id matches Some(c) ==> conversation_ids@.contains(c),
            is_schema(request.projection_schema, CONVERSATION_PROJECTION@),
            request.input is Some,
            facet_answered(request.reads@, FacetTarget::World, CHAT_WORLD_INDEX_FACET@, 1),
            selected is None ==> forall|k: int| 0 <= k < i ==> selected_id != Some(#[trigger] conversation_ids@[k]),
            forall|k: int|
                0 <= k < i ==> (first_facet_value(
                    request.reads@,
                    FacetTarget::Entity(#[trigger] conversation_ids@[k]),
                    CONVERSATION_STATE_FACET@,
                    1,
                ) matches Some(Some(FacetPayload::Conversation(c))) && conversation_error(c) is None),
        decreases conversation_ids@.len() - i,
    {
        let id = conversation_ids[i];
        proof {
            assert(facet_answered(request.reads@, FacetTarget::Entity(conversation_ids@[i as int]), CONVERSATION_STATE_FACET@, 1));
            lemma_answered_first(request.reads@, FacetTarget::Entity(id), CONVERSATION_STATE_FACET@, 1);
        }
        let state = match conversation_facet(reads, id, &conversation_schema) {
            Ok(state) => state,
            Err(stop) => {
                proof {
                    assert(!indexed_states_ok(request.reads@)) by {
                        assert(indexed_conversations(request.reads@)[i as int] == id);
                    }
                }
                return Err(stop);
            },
        };
        if state.validate().is_err() {
            proof {
                assert(!indexed_states_ok(request.reads@)) by {
                    assert(indexed_conversations(request.reads@)[i as int] == id);
                }
            }
            return Err(ProjectionStop::MissingState);
        }
        conversations.push(ChatConversationSummary { id, title: copy_text(&state.title) });
        match selected_id {
            Some(s) => {
                if s == id {
                    selected = Some(state);
                }
            },
            None => {},
        }
        i = i + 1;
    }
    proof {
        assert(indexed_states_ok(request.reads@));
        assert(conversation_ids_of(conversations@) =~= conversation_ids@);
        if let Some(s) = selected_id {
            if input.conversation_id is None {
                assert(conversation_ids@[conversation_ids@.len() - 1] == s);
            }
            assert(conversation_ids@.contains(s));
        }
    }
    match selected_id {
        None => Ok(
            ProjectionResponse::Complete {
                view: ChatConversationView {
                    conversations,
                    selected_conversation_id: None,
                    selected_leaf: None,
                    participants: Vec::new(),
                    messages: Vec::new(),
                },
            },
        ),
        Some(id) => match selected {
            Some(state) => evaluate_conversation(request, conversations, id, state),
            None => Err(ProjectionStop::MissingState),
        },
    }
}

/// Evaluates the conversation view of one principal over the world reads
/// answered so far. A request of another schema, or whose input did not
/// decode, is rejected as invalid input. The first read asked is the world's
/// chat index; then, as each is needed, the states of the indexed
/// conversations, the identities and message states of the selected one, the
/// control answers for participants linked to entities, and the contents of
/// the messages' current revisions: a read response asks for exactly reads
/// not answered yet. A refused index, a named conversation the index does not
/// list, or any missing or inconsistent chat state is rejected; a view that
/// completes lists the indexed conversations, selects the named one or else
/// the newest, shows the selected conversation's leaf, participants and
/// messages in order, and holds together.
pub fn evaluate_chat_projection(request: &ProjectionRequest) -> (r: ProjectionResponse)
    ensures
        !request_valid(*request) ==> stop_response_is(ProjectionStop::InvalidInput, r),
        request_valid(*request) && !facet_answered(request.reads@, FacetTarget::World, CHAT_WORLD_INDEX_FACET@, 1) ==> (r matches ProjectionResponse::Read {
            requests,
        } && asks_world_index(requests@)),
        request_valid(*request) && facet_answered(request.reads@, FacetTarget::World, CHAT_WORLD_INDEX_FACET@, 1) ==> {
            &&& index_refused(request.reads@) ==> stop_response_is(ProjectionStop::MissingState, r)
            &&& (request.input.unwrap().conversation_id matches Some(c) && !index_refused(request.reads@)
                && !indexed_conversations(request.reads@).contains(c)) ==> stop_response_is(ProjectionStop::MissingState, r)
            &&& !index_refused(request.reads@) && indexed_conversations(request.reads@).len() == 0
                && request.input.unwrap().conversation_id is None ==> (r matches ProjectionResponse::Complete { view }
                && view.conversations@.len() == 0 && view.selected_conversation_id is None)
            &&& !index_refused(request.reads@) && names_indexed(*request) && conversation_state_unread(request.reads@) ==> r is Read
            &&& !index_refused(request.reads@) && names_indexed(*request) && !conversation_state_unread(request.reads@) ==> {
                &&& !indexed_states_ok(request.reads@) ==> stop_response_is(ProjectionStop::MissingState, r)
                &&& indexed_states_ok(request.reads@) ==> match selected_of(request.input.unwrap(), indexed_conversations(request.reads@)) {
                    None => r is Complete,
                    Some(c) => if conversation_refused(request.reads@, state_of(request.reads@, c), c) {
                        stop_response_is(ProjectionStop::MissingState, r)
                    } else if conversation_fully_read(request.reads@, state_of(request.reads@, c), c) {
                        r is Complete
                    } else {
                        r is Read
                    },
                }
            }
        },
        r is Read || r is Complete ==> response_sound(request.reads@, r),
        r matches ProjectionResponse::Complete { view } ==> {
            &&& conversation_ids_of(view.conversations@) == indexed_conversations(request.reads@)
            &&& view.selected_conversation_id == selected_of(request.input.unwrap(), indexed_conversations(request.reads@))
            &&& shows_selected(request.reads@, view)
            &&& view_from_reads(request.reads@, request.principal, view)
        },
        r is Rejected || r is Failed ==> exists|stop: ProjectionStop| stop_response_is(stop, r),
{
    match evaluate(request) {
        Ok(response) => response,
        Err(stop) => stop_response(stop),
    }
}

} // verus!
