//! Chat commands evaluated over world reads: either the reads still missing,
//! a refusal, or the transaction that carries the command out.

use vstd::prelude::*;

use crate::chat::{
    command_entity_id, derived_entity_id, entity_bytes, entity_domain, framed, relation_domain, relation_id, uuid_from_digest, uuid_number,
    ChatSchemaError, ChatWorldIndex, ContentBlock, ConversationState, CreateConversationCommand, EntityId, MessageContent, MessageState,
    ParticipantBinding, ParticipantIdentity, PrincipalId, blocks_error, required_text_ok, state_error, unique_ids,
    validate_blocks, validate_participant_name, validate_title, MAX_CHAT_CONVERSATIONS, MAX_CHAT_TITLE_BYTES,
    MAX_PARTICIPANT_NAME_BYTES,
};
use crate::text::byte_len;
use crate::codec::sha256_of;
use crate::chat_view::{chat_schema, copy_schema, is_schema, schema_eq, FacetPayload, FacetTarget, SchemaKey};

verus! {

/// Reason given for a malformed or inconsistent command.
pub const DIAGNOSTIC_INVALID_COMMAND: &'static str = "invalid Chat command";
/// Reason given for missing or inconsistent chat state.
pub const DIAGNOSTIC_MISSING_STATE: &'static str = "required Chat state is missing or incompatible";
/// Reason given when the actor does not control the participant.
pub const DIAGNOSTIC_UNAUTHORIZED: &'static str = "Chat participant is not controlled by this actor";
/// Reason given when the reads lack an answer the evaluation needs.
pub const DIAGNOSTIC_TRANSPORT: &'static str = "Chat System snapshot transport is incomplete";

/// The conversation entity schema.
pub const CONVERSATION_ENTITY: &'static str = "rintawa.chat.conversation";
/// The participant entity schema.
pub const PARTICIPANT_ENTITY: &'static str = "rintawa.chat.participant";
/// The message entity schema.
pub const MESSAGE_ENTITY: &'static str = "rintawa.chat.message";
/// The message revision entity schema.
pub const MESSAGE_REVISION_ENTITY: &'static str = "rintawa.chat.message-revision";
/// Relation from a conversation to a participant.
pub const CONVERSATION_PARTICIPANT_RELATION: &'static str = "rintawa.chat.conversation-participant";
/// Relation from a conversation to a message.
pub const CONVERSATION_MESSAGE_RELATION: &'static str = "rintawa.chat.conversation-message";
/// Relation from a message to its author.
pub const MESSAGE_AUTHOR_RELATION: &'static str = "rintawa.chat.message-author";
/// Relation from a message to its parent.
pub const MESSAGE_PARENT_RELATION: &'static str = "rintawa.chat.message-parent";
/// Relation from a message to a revision.
pub const MESSAGE_REVISION_RELATION: &'static str = "rintawa.chat.message-has-revision";
/// Relation from a message to the message it is an alternative of.
pub const MESSAGE_VARIANT_RELATION: &'static str = "rintawa.chat.message-variant";
/// The create-conversation command.
pub const CREATE_CONVERSATION_COMMAND: &'static str = "rintawa.chat.create-conversation";
/// The add-participant command.
pub const ADD_PARTICIPANT_COMMAND: &'static str = "rintawa.chat.add-participant";
/// The edit-message command.
pub const EDIT_MESSAGE_COMMAND: &'static str = "rintawa.chat.edit-message";
/// The select-branch command.
pub const SELECT_BRANCH_COMMAND: &'static str = "rintawa.chat.select-branch";
/// The request-alternative command.
pub const REQUEST_ALTERNATIVE_COMMAND: &'static str = "rintawa.chat.request-alternative";
/// The conversation-created event.
pub const CONVERSATION_CREATED_EVENT: &'static str = "rintawa.chat.conversation-created";
/// The participant-added event.
pub const PARTICIPANT_ADDED_EVENT: &'static str = "rintawa.chat.participant-added";
/// The message-added event.
pub const MESSAGE_ADDED_EVENT: &'static str = "rintawa.chat.message-added";
/// The message-edited event.
pub const MESSAGE_EDITED_EVENT: &'static str = "rintawa.chat.message-edited";
/// The branch-selected event.
pub const BRANCH_SELECTED_EVENT: &'static str = "rintawa.chat.branch-selected";
/// The alternative-requested event.
pub const ALTERNATIVE_REQUESTED_EVENT: &'static str = "rintawa.chat.alternative-requested";

/// Who submits a command: a principal directly, or an entity it controls.
#[derive(Debug, Clone, Copy, PartialEq, Eq, Structural)]
pub enum SystemActor {
    Principal(PrincipalId),
    Entity(EntityId),
}

/// The binding a new participant asks for.
#[derive(Debug, Clone, Copy, PartialEq, Eq, Structural)]
pub enum ParticipantBindingRequest {
    /// The principal submitting the command.
    CurrentPrincipal,
    /// One world entity.
    Entity { entity_id: EntityId },
    /// No direct controller.
    Uncontrolled,
}

/// Adds a participant to a conversation.
#[derive(Debug)]
pub struct AddParticipantCommand {
    pub conversation_id: EntityId,
    pub display_name: String,
    pub binding: ParticipantBindingRequest,
}

/// Sends a message as a participant.
#[derive(Debug)]
pub struct SendMessageCommand {
    pub conversation_id: EntityId,
    pub participant_id: EntityId,
    pub parent_message_id: Option<EntityId>,
    pub alternative_of: Option<EntityId>,
    pub blocks: Vec<ContentBlock>,
}

/// Replaces a message's content with a new revision.
#[derive(Debug)]
pub struct EditMessageCommand {
    pub message_id: EntityId,
    pub blocks: Vec<ContentBlock>,
}

/// Selects the visible branch leaf of a conversation.
#[derive(Debug, Clone, Copy, PartialEq, Eq, Structural)]
pub struct SelectBranchCommand {
    pub conversation_id: EntityId,
    pub message_id: EntityId,
}

/// Asks for an alternative to a message.
#[derive(Debug, Clone, Copy, PartialEq, Eq, Structural)]
pub struct RequestAlternativeCommand {
    pub conversation_id: EntityId,
    pub message_id: EntityId,
    pub participant_id: EntityId,
}

/// A command payload, decoded as its schema says.
#[derive(Debug)]
pub enum CommandPayload {
    CreateConversation(CreateConversationCommand),
    AddParticipant(AddParticipantCommand),
    SendMessage(SendMessageCommand),
    EditMessage(EditMessageCommand),
    SelectBranch(SelectBranchCommand),
    RequestAlternative(RequestAlternativeCommand),
    /// A payload that does not decode as its schema says.
    Undecodable,
}

/// One submitted command.
#[derive(Debug)]
pub struct SystemCommand {
    pub schema: SchemaKey,
    /// Command identifier (a UUID's bytes).
    pub id: [u8; 16],
    pub principal: PrincipalId,
    pub actor: SystemActor,
    /// Time the command takes effect, in Unix milliseconds.
    pub effective_at: Option<u64>,
    pub payload: CommandPayload,
}

/// A world entity as read.
#[derive(Debug)]
pub struct EntityRecord {
    pub schema: SchemaKey,
}

/// A world relation as read.
#[derive(Debug)]
pub struct RelationRecord {
    pub schema: SchemaKey,
    pub from: EntityId,
    pub to: EntityId,
}

/// The answer to one read.
#[derive(Debug)]
pub enum SystemReadResult {
    Entity { entity_id: EntityId, value: Option<EntityRecord> },
    Relation { relation_id: [u8; 16], value: Option<RelationRecord> },
    Facet { target: FacetTarget, schema: SchemaKey, value: Option<FacetPayload> },
}

/// A read the evaluation asks for.
#[derive(Debug)]
pub enum SystemReadRequest {
    Entity { entity_id: EntityId },
    Relation { relation_id: [u8; 16] },
    Facet { target: FacetTarget, schema: SchemaKey },
}

/// One command evaluation: the command and the reads answered so far.
#[derive(Debug)]
pub struct SystemRequest {
    pub command: SystemCommand,
    pub reads: Vec<SystemReadResult>,
}

/// A conversation was created.
#[derive(Debug, Clone, Copy, PartialEq, Eq, Structural)]
pub struct ConversationCreatedEvent {
    pub conversation_id: EntityId,
}

/// A participant was added.
#[derive(Debug, Clone, Copy, PartialEq, Eq, Structural)]
pub struct ParticipantAddedEvent {
    pub conversation_id: EntityId,
    pub participant_id: EntityId,
}

/// A message was added.
#[derive(Debug, Clone, Copy, PartialEq, Eq, Structural)]
pub struct MessageAddedEvent {
    pub conversation_id: EntityId,
    pub message_id: EntityId,
    pub revision_id: EntityId,
    pub participant_id: EntityId,
    pub parent_message_id: Option<EntityId>,
    pub alternative_of: Option<EntityId>,
}

/// A message got a new revision.
#[derive(Debug, Clone, Copy, PartialEq, Eq, Structural)]
pub struct MessageEditedEvent {
    pub message_id: EntityId,
    pub previous_revision_id: EntityId,
    pub revision_id: EntityId,
}

/// A branch leaf was selected.
#[derive(Debug, Clone, Copy, PartialEq, Eq, Structural)]
pub struct BranchSelectedEvent {
    pub conversation_id: EntityId,
    pub message_id: EntityId,
}

/// An alternative was asked for.
#[derive(Debug, Clone, Copy, PartialEq, Eq, Structural)]
pub struct AlternativeRequestedEvent {
    pub conversation_id: EntityId,
    pub message_id: EntityId,
    pub participant_id: EntityId,
}

/// The payload of a proposed event.
#[derive(Debug, Clone, Copy, PartialEq, Eq, Structural)]
pub enum ChatEvent {
    ConversationCreated(ConversationCreatedEvent),
    ParticipantAdded(ParticipantAddedEvent),
    MessageAdded(MessageAddedEvent),
    MessageEdited(MessageEditedEvent),
    BranchSelected(BranchSelectedEvent),
    AlternativeRequested(AlternativeRequestedEvent),
}

/// One proposed change of the world.
#[derive(Debug)]
pub enum Mutation {
    CreateEntity { entity_id: EntityId, schema: SchemaKey },
    SetFacet { target: FacetTarget, schema: SchemaKey, payload: FacetPayload },
    CreateRelation { relation_id: [u8; 16], schema: SchemaKey, from: EntityId, to: EntityId },
}

/// One proposed event.
#[derive(Debug)]
pub struct EventProposal {
    pub schema: SchemaKey,
    pub payload: ChatEvent,
}

/// The changes and events a command proposes, in order.
#[derive(Debug)]
pub struct Transaction {
    pub mutations: Vec<Mutation>,
    pub events: Vec<EventProposal>,
}

/// What an evaluation answers.
#[derive(Debug)]
pub enum SystemResponse {
    /// More reads are needed.
    Read { requests: Vec<SystemReadRequest> },
    /// The command carried out.
    Transaction { transaction: Transaction },
    /// The command or the world state is refused.
    Rejected { reason: String },
    /// The reads are incomplete.
    Failed { reason: String },
}

/// Why an evaluation stops early.
#[derive(Debug, Clone, Copy, PartialEq, Eq, Structural)]
pub enum SystemStop {
    /// The command is malformed or inconsistent (rejected).
    InvalidCommand,
    /// Chat state is missing or inconsistent (rejected).
    MissingState,
    /// The actor does not control the participant (rejected).
    Unauthorized,
    /// An answer the evaluation needs is not among the reads (failed).
    Transport,
}

/// The response an early stop gives.
pub open spec fn system_stop_is(stop: SystemStop, r: SystemResponse) -> bool {
    match stop {
        SystemStop::InvalidCommand => r matches SystemResponse::Rejected { reason } && reason@ == DIAGNOSTIC_INVALID_COMMAND@,
        SystemStop::MissingState => r matches SystemResponse::Rejected { reason } && reason@ == DIAGNOSTIC_MISSING_STATE@,
        SystemStop::Unauthorized => r matches SystemResponse::Rejected { reason } && reason@ == DIAGNOSTIC_UNAUTHORIZED@,
        SystemStop::Transport => r matches SystemResponse::Failed { reason } && reason@ == DIAGNOSTIC_TRANSPORT@,
    }
}

fn system_stop_response(stop: SystemStop) -> (r: SystemResponse)
    ensures
        system_stop_is(stop, r),
{
    match stop {
        SystemStop::InvalidCommand => SystemResponse::Rejected { reason: String::from_str(DIAGNOSTIC_INVALID_COMMAND) },
        SystemStop::MissingState => SystemResponse::Rejected { reason: String::from_str(DIAGNOSTIC_MISSING_STATE) },
        SystemStop::Unauthorized => SystemResponse::Rejected { reason: String::from_str(DIAGNOSTIC_UNAUTHORIZED) },
        SystemStop::Transport => SystemResponse::Failed { reason: String::from_str(DIAGNOSTIC_TRANSPORT) },
    }
}

/// The first answer on entity `id`: `None` where no read answers it.
pub open spec fn first_entity(reads: Seq<SystemReadResult>, id: EntityId) -> Option<Option<EntityRecord>>
    decreases reads.len(),
{
    if reads.len() == 0 {
        None
    } else {
        match reads[0] {
            SystemReadResult::Entity { entity_id, value } => if entity_id == id {
                Some(value)
            } else {
                first_entity(reads.drop_first(), id)
            },
            _ => first_entity(reads.drop_first(), id),
        }
    }
}

/// The first answer on relation `rid`: `None` where no read answers it.
pub open spec fn first_relation(reads: Seq<SystemReadResult>, rid: Seq<u8>) -> Option<Option<RelationRecord>>
    decreases reads.len(),
{
    if reads.len() == 0 {
        None
    } else {
        match reads[0] {
            SystemReadResult::Relation { relation_id, value } => if relation_id@ == rid {
                Some(value)
            } else {
                first_relation(reads.drop_first(), rid)
            },
            _ => first_relation(reads.drop_first(), rid),
        }
    }
}

/// The first answer on the facet of schema `id`, version 1, on `target`:
/// `None` where no read answers it.
pub open spec fn first_facet(reads: Seq<SystemReadResult>, target: FacetTarget, id: Seq<char>) -> Option<Option<FacetPayload>>
    decreases reads.len(),
{
    if reads.len() == 0 {
        None
    } else {
        match reads[0] {
            SystemReadResult::Facet { target: t, schema, value } => if t == target && is_schema(schema, id) {
                Some(value)
            } else {
                first_facet(reads.drop_first(), target, id)
            },
            _ => first_facet(reads.drop_first(), target, id),
        }
    }
}

/// The reads answer entity `id` with an entity of schema `schema`, version 1.
pub open spec fn entity_ok(reads: Seq<SystemReadResult>, id: EntityId, schema: Seq<char>) -> bool {
    first_entity(reads, id) matches Some(Some(record)) && is_schema(record.schema, schema)
}

/// The reads answer relation `rid` with a relation of schema `schema`,
/// version 1, from `from` to `to`.
pub open spec fn relation_ok(reads: Seq<SystemReadResult>, rid: Seq<u8>, schema: Seq<char>, from: EntityId, to: EntityId) -> bool {
    first_relation(reads, rid) matches Some(Some(record)) && is_schema(record.schema, schema) && record.from == from
        && record.to == to
}

/// The identifier bytes of the relation tagged `tag` between `from` and `to`.
pub open spec fn relation_key(tag: Seq<char>, from: EntityId, to: EntityId) -> Seq<u8> {
    uuid_from_digest(
        sha256_of(
            framed(relation_domain(), seq![entity_bytes(from), entity_bytes(to)].push(vstd::utf8::encode_utf8(tag))),
        ),
    )
}

/// How a check of entity `id` against schema `schema` ends: unanswered, it
/// fails; absent or of another schema, it is refused.
pub open spec fn entity_check(reads: Seq<SystemReadResult>, id: EntityId, schema: Seq<char>) -> Result<(), SystemStop> {
    match first_entity(reads, id) {
        None => Err(SystemStop::Transport),
        Some(None) => Err(SystemStop::MissingState),
        Some(Some(record)) => if is_schema(record.schema, schema) {
            Ok(())
        } else {
            Err(SystemStop::MissingState)
        },
    }
}

/// How a check of relation `rid` against schema `schema` and its two ends
/// ends: unanswered, it fails; absent or different, it is refused.
pub open spec fn relation_check(
    reads: Seq<SystemReadResult>,
    rid: Seq<u8>,
    schema: Seq<char>,
    from: EntityId,
    to: EntityId,
) -> Result<(), SystemStop> {
    match first_relation(reads, rid) {
        None => Err(SystemStop::Transport),
        Some(None) => Err(SystemStop::MissingState),
        Some(Some(record)) => if is_schema(record.schema, schema) && record.from == from && record.to == to {
            Ok(())
        } else {
            Err(SystemStop::MissingState)
        },
    }
}

fn is_chat_schema(k: &SchemaKey, id: &str) -> (r: bool)
    ensures
        r == is_schema(*k, id@),
{
    k.version == 1 && crate::text::str_equal(k.id.as_str(), id)
}

/// The first answer on entity `id`.
fn find_entity<'a>(reads: &'a Vec<SystemReadResult>, id: EntityId) -> (r: Option<&'a Option<EntityRecord>>)
    ensures
        match r {
            Some(v) => first_entity(reads@, id) == Some(*v),
            None => first_entity(reads@, id) is None,
        },
{
    let mut k: usize = 0;
    proof {
        assert(reads@.skip(0) =~= reads@);
    }
    while k < reads.len()
        invariant
            k <= reads@.len(),
            first_entity(reads@, id) == first_entity(reads@.skip(k as int), id),
        decreases reads@.len() - k,
    {
        proof {
            assert(reads@.skip(k as int)[0] == reads@[k as int]);
            assert(reads@.skip(k as int).drop_first() =~= reads@.skip(k + 1));
        }
        match &reads[k] {
            SystemReadResult::Entity { entity_id, value } => {
                if *entity_id == id {
                    return Some(value);
                }
            },
            _ => {},
        }
        k = k + 1;
    }
    proof {
        assert(reads@.skip(k as int).len() == 0);
    }
    None
}

/// The first answer on relation `rid`.
fn find_relation<'a>(reads: &'a Vec<SystemReadResult>, rid: &[u8; 16]) -> (r: Option<&'a Option<RelationRecord>>)
    ensures
        match r {
            Some(v) => first_relation(reads@, rid@) == Some(*v),
            None => first_relation(reads@, rid@) is None,
        },
{
    let mut k: usize = 0;
    proof {
        assert(reads@.skip(0) =~= reads@);
    }
    while k < reads.len()
        invariant
            k <= reads@.len(),
            first_relation(reads@, rid@) == first_relation(reads@.skip(k as int), rid@),
        decreases reads@.len() - k,
    {
        proof {
            assert(reads@.skip(k as int)[0] == reads@[k as int]);
            assert(reads@.skip(k as int).drop_first() =~= reads@.skip(k + 1));
        }
        match &reads[k] {
            SystemReadResult::Relation { relation_id, value } => {
                if bytes16_equal(relation_id, rid) {
                    return Some(value);
                }
            },
            _ => {},
        }
        k = k + 1;
    }
    proof {
        assert(reads@.skip(k as int).len() == 0);
    }
    None
}

fn bytes16_equal(a: &[u8; 16], b: &[u8; 16]) -> (r: bool)
    ensures
        r == (a@ == b@),
{
    let mut k: usize = 0;
    while k < 16
        invariant
            k <= 16,
            a@.len() == 16,
            b@.len() == 16,
            forall|j: int| 0 <= j < k ==> a@[j] == b@[j],
        decreases 16 - k,
    {
        if a[k] != b[k] {
            return false;
        }
        k = k + 1;
    }
    proof {
        assert(a@ =~= b@);
    }
    true
}

/// The first answer on the facet of schema `schema`, version 1, on `target`.
fn find_facet<'a>(reads: &'a Vec<SystemReadResult>, target: FacetTarget, schema: &str) -> (r: Option<&'a Option<FacetPayload>>)
    ensures
        match r {
            Some(v) => first_facet(reads@, target, schema@) == Some(*v),
            None => first_facet(reads@, target, schema@) is None,
        },
{
    let mut k: usize = 0;
    proof {
        assert(reads@.skip(0) =~= reads@);
    }
    while k < reads.len()
        invariant
            k <= reads@.len(),
            first_facet(reads@, target, schema@) == first_facet(reads@.skip(k as int), target, schema@),
        decreases reads@.len() - k,
    {
        proof {
            assert(reads@.skip(k as int)[0] == reads@[k as int]);
            assert(reads@.skip(k as int).drop_first() =~= reads@.skip(k + 1));
        }
        match &reads[k] {
            SystemReadResult::Facet { target: t, schema: s, value } => {
                if *t == target && is_chat_schema(s, schema) {
                    return Some(value);
                }
            },
            _ => {},
        }
        k = k + 1;
    }
    proof {
        assert(reads@.skip(k as int).len() == 0);
    }
    None
}

/// Checks entity `id` against schema `schema`.
fn expect_entity(reads: &Vec<SystemReadResult>, id: EntityId, schema: &str) -> (r: Result<(), SystemStop>)
    ensures
        r == entity_check(reads@, id, schema@),
{
    match find_entity(reads, id) {
        None => Err(SystemStop::Transport),
        Some(None) => Err(SystemStop::MissingState),
        Some(Some(record)) => if is_chat_schema(&record.schema, schema) {
            Ok(())
        } else {
            Err(SystemStop::MissingState)
        },
    }
}

/// Checks that entity `id` is answered and present, whatever its schema.
fn expect_any_entity(reads: &Vec<SystemReadResult>, id: EntityId) -> (r: Result<(), SystemStop>)
    ensures
        match first_entity(reads@, id) {
            None => r == Err::<(), SystemStop>(SystemStop::Transport),
            Some(None) => r == Err::<(), SystemStop>(SystemStop::MissingState),
            Some(Some(_)) => r is Ok,
        },
{
    match find_entity(reads, id) {
        None => Err(SystemStop::Transport),
        Some(None) => Err(SystemStop::MissingState),
        Some(Some(_)) => Ok(()),
    }
}

/// Checks the relation tagged `tag` from `from` to `to` against schema
/// `schema`.
fn expect_relation(reads: &Vec<SystemReadResult>, tag: &str, schema: &str, from: EntityId, to: EntityId) -> (r: Result<(), SystemStop>)
    ensures
        r == relation_check(reads@, relation_key(tag@, from, to), schema@, from, to),
{
    let rid = pair_relation_id(tag, from, to);
    match find_relation(reads, &rid) {
        None => Err(SystemStop::Transport),
        Some(None) => Err(SystemStop::MissingState),
        Some(Some(record)) => if is_chat_schema(&record.schema, schema) && record.from == from && record.to == to {
            Ok(())
        } else {
            Err(SystemStop::MissingState)
        },
    }
}

/// The identifier of the relation tagged `tag` between `from` and `to`.
fn pair_relation_id(tag: &str, from: EntityId, to: EntityId) -> (r: [u8; 16])
    ensures
        r@ == relation_key(tag@, from, to),
{
    let entities = vec![from, to];
    let r = relation_id(tag, &entities);
    proof {
        assert(entities@.map_values(|e: EntityId| entity_bytes(e)) =~= seq![entity_bytes(from), entity_bytes(to)]);
    }
    r
}

/// The first answer's conversation state on `id`.
pub open spec fn conversation_lookup(reads: Seq<SystemReadResult>, id: EntityId) -> Result<ConversationState, SystemStop> {
    match first_facet(reads, FacetTarget::Entity(id), crate::chat_view::CONVERSATION_STATE_FACET@) {
        None => Err(SystemStop::Transport),
        Some(Some(FacetPayload::Conversation(state))) => Ok(state),
        Some(_) => Err(SystemStop::MissingState),
    }
}

/// The first answer's participant identity on `id`.
pub open spec fn participant_lookup(reads: Seq<SystemReadResult>, id: EntityId) -> Result<ParticipantIdentity, SystemStop> {
    match first_facet(reads, FacetTarget::Entity(id), crate::chat_view::PARTICIPANT_IDENTITY_FACET@) {
        None => Err(SystemStop::Transport),
        Some(Some(FacetPayload::Participant(identity))) => Ok(identity),
        Some(_) => Err(SystemStop::MissingState),
    }
}

/// The first answer's message state on `id`.
pub open spec fn message_lookup(reads: Seq<SystemReadResult>, id: EntityId) -> Result<MessageState, SystemStop> {
    match first_facet(reads, FacetTarget::Entity(id), crate::chat_view::MESSAGE_STATE_FACET@) {
        None => Err(SystemStop::Transport),
        Some(Some(FacetPayload::Message(state))) => Ok(state),
        Some(_) => Err(SystemStop::MissingState),
    }
}

fn expect_conversation<'a>(reads: &'a Vec<SystemReadResult>, id: EntityId) -> (r: Result<&'a ConversationState, SystemStop>)
    ensures
        match conversation_lookup(reads@, id) {
            Ok(state) => r matches Ok(x) && *x == state,
            Err(e) => r == Err::<&ConversationState, SystemStop>(e),
        },
{
    match find_facet(reads, FacetTarget::Entity(id), crate::chat_view::CONVERSATION_STATE_FACET) {
        None => Err(SystemStop::Transport),
        Some(Some(FacetPayload::Conversation(state))) => Ok(state),
        Some(_) => Err(SystemStop::MissingState),
    }
}

fn expect_participant<'a>(reads: &'a Vec<SystemReadResult>, id: EntityId) -> (r: Result<&'a ParticipantIdentity, SystemStop>)
    ensures
        match participant_lookup(reads@, id) {
            Ok(identity) => r matches Ok(x) && *x == identity,
            Err(e) => r == Err::<&ParticipantIdentity, SystemStop>(e),
        },
{
    match find_facet(reads, FacetTarget::Entity(id), crate::chat_view::PARTICIPANT_IDENTITY_FACET) {
        None => Err(SystemStop::Transport),
        Some(Some(FacetPayload::Participant(identity))) => Ok(identity),
        Some(_) => Err(SystemStop::MissingState),
    }
}

fn expect_message(reads: &Vec<SystemReadResult>, id: EntityId) -> (r: Result<MessageState, SystemStop>)
    ensures
        r == message_lookup(reads@, id),
{
    match find_facet(reads, FacetTarget::Entity(id), crate::chat_view::MESSAGE_STATE_FACET) {
        None => Err(SystemStop::Transport),
        Some(Some(FacetPayload::Message(state))) => Ok(*state),
        Some(_) => Err(SystemStop::MissingState),
    }
}

/// The actor may author through a participant bound as `binding`: a
/// principal binding needs that principal acting directly, an entity binding
/// that entity acting; an uncontrolled participant has no author.
pub open spec fn authorized(principal: PrincipalId, actor: SystemActor, binding: ParticipantBinding) -> bool {
    match binding {
        ParticipantBinding::Principal { principal_id } => principal_id == principal && actor == SystemActor::Principal(principal_id),
        ParticipantBinding::Entity { entity_id } => actor == SystemActor::Entity(entity_id),
        ParticipantBinding::Uncontrolled => false,
    }
}

fn authorize_participant(command: &SystemCommand, binding: ParticipantBinding) -> (r: Result<(), SystemStop>)
    ensures
        authorized(command.principal, command.actor, binding) ==> r is Ok,
        !authorized(command.principal, command.actor, binding) ==> r == Err::<(), SystemStop>(SystemStop::Unauthorized),
{
    match binding {
        ParticipantBinding::Principal { principal_id } => {
            if principal_id == command.principal && command.actor == SystemActor::Principal(principal_id) {
                Ok(())
            } else {
                Err(SystemStop::Unauthorized)
            }
        },
        ParticipantBinding::Entity { entity_id } => {
            if command.actor == SystemActor::Entity(entity_id) {
                Ok(())
            } else {
                Err(SystemStop::Unauthorized)
            }
        },
        ParticipantBinding::Uncontrolled => Err(SystemStop::Unauthorized),
    }
}

/// The principal submits the command itself, not through an entity.
pub open spec fn direct_principal(command: SystemCommand) -> bool {
    command.actor == SystemActor::Principal(command.principal)
}

fn require_direct_principal(command: &SystemCommand) -> (r: Result<(), SystemStop>)
    ensures
        direct_principal(*command) ==> r is Ok,
        !direct_principal(*command) ==> r == Err::<(), SystemStop>(SystemStop::Unauthorized),
{
    if command.actor == SystemActor::Principal(command.principal) {
        Ok(())
    } else {
        Err(SystemStop::Unauthorized)
    }
}

/// How a reference to message `m` of conversation `conversation` checks
/// out: no reference passes; a referenced message must be a message entity
/// with a state in that conversation.
pub open spec fn reference_check(reads: Seq<SystemReadResult>, m: Option<EntityId>, conversation: EntityId) -> Result<
    Option<MessageState>,
    SystemStop,
> {
    match m {
        None => Ok(None),
        Some(id) => match entity_check(reads, id, MESSAGE_ENTITY@) {
            Err(e) => Err(e),
            Ok(_) => match message_lookup(reads, id) {
                Err(e) => Err(e),
                Ok(state) => if state.conversation_id != conversation {
                    Err(SystemStop::MissingState)
                } else {
                    Ok(Some(state))
                },
            },
        },
    }
}

fn validate_message_reference(reads: &Vec<SystemReadResult>, m: Option<EntityId>, conversation: EntityId) -> (r: Result<
    Option<MessageState>,
    SystemStop,
>)
    ensures
        r == reference_check(reads@, m, conversation),
{
    match m {
        None => Ok(None),
        Some(id) => {
            expect_entity(reads, id, MESSAGE_ENTITY)?;
            let state = expect_message(reads, id)?;
            if state.conversation_id != conversation {
                return Err(SystemStop::MissingState);
            }
            Ok(Some(state))
        },
    }
}

/// Read `q` asks for entity `id`.
pub open spec fn reads_entity(q: SystemReadRequest, id: EntityId) -> bool {
    q matches SystemReadRequest::Entity { entity_id } && entity_id == id
}

/// Read `q` asks for relation `rid`.
pub open spec fn reads_relation(q: SystemReadRequest, rid: Seq<u8>) -> bool {
    q matches SystemReadRequest::Relation { relation_id } && relation_id@ == rid
}

/// Read `q` asks for the facet of schema `schema`, version 1, on `target`.
pub open spec fn reads_facet(q: SystemReadRequest, target: FacetTarget, schema: Seq<char>) -> bool {
    q matches SystemReadRequest::Facet { target: t, schema: s } && t == target && is_schema(s, schema)
}

fn entity_read(id: EntityId) -> (q: SystemReadRequest)
    ensures
        reads_entity(q, id),
{
    SystemReadRequest::Entity { entity_id: id }
}

fn relation_read(tag: &str, from: EntityId, to: EntityId) -> (q: SystemReadRequest)
    ensures
        reads_relation(q, relation_key(tag@, from, to)),
{
    SystemReadRequest::Relation { relation_id: pair_relation_id(tag, from, to) }
}

fn facet_read(target: FacetTarget, schema: &str) -> (q: SystemReadRequest)
    ensures
        reads_facet(q, target, schema@),
{
    SystemReadRequest::Facet { target, schema: chat_schema(schema) }
}

/// Mutation `m` creates entity `id` of schema `schema`, version 1.
pub open spec fn creates_entity(m: Mutation, id: EntityId, schema: Seq<char>) -> bool {
    m matches Mutation::CreateEntity { entity_id, schema: s } && entity_id == id && is_schema(s, schema)
}

/// Mutation `m` sets the facet of schema `schema`, version 1, on `target`.
pub open spec fn sets_facet(m: Mutation, target: FacetTarget, schema: Seq<char>) -> bool {
    m matches Mutation::SetFacet { target: t, schema: s, .. } && t == target && is_schema(s, schema)
}

/// Mutation `m` creates the relation tagged `tag` of schema `schema`,
/// version 1, from `from` to `to`.
pub open spec fn creates_relation(m: Mutation, tag: Seq<char>, schema: Seq<char>, from: EntityId, to: EntityId) -> bool {
    m matches Mutation::CreateRelation { relation_id, schema: s, from: f, to: t } && relation_id@ == relation_key(tag, from, to)
        && is_schema(s, schema) && f == from && t == to
}

/// Event `e` has schema `schema`, version 1, and payload `payload`.
pub open spec fn proposes(e: EventProposal, schema: Seq<char>, payload: ChatEvent) -> bool {
    is_schema(e.schema, schema) && e.payload == payload
}

/// Facet payload `p` is a conversation state with these parts.
pub open spec fn conversation_is(
    p: FacetPayload,
    title: Option<String>,
    leaf: Option<EntityId>,
    participants: Seq<EntityId>,
    messages: Seq<EntityId>,
) -> bool {
    p matches FacetPayload::Conversation(state) && crate::chat_view::same_optional_text(state.title, title) && state.selected_leaf
        == leaf && state.participant_ids@ == participants && state.message_ids@ == messages
}

/// The payload mutation `m` sets.
pub open spec fn set_payload(m: Mutation) -> FacetPayload {
    match m {
        Mutation::SetFacet { payload, .. } => payload,
        _ => FacetPayload::Undecodable,
    }
}

fn create_entity(id: EntityId, schema: &str) -> (m: Mutation)
    ensures
        creates_entity(m, id, schema@),
{
    Mutation::CreateEntity { entity_id: id, schema: chat_schema(schema) }
}

fn set_facet(target: FacetTarget, schema: &str, payload: FacetPayload) -> (m: Mutation)
    ensures
        sets_facet(m, target, schema@),
        set_payload(m) == payload,
{
    Mutation::SetFacet { target, schema: chat_schema(schema), payload }
}

fn create_relation(tag: &str, schema: &str, from: EntityId, to: EntityId) -> (m: Mutation)
    ensures
        creates_relation(m, tag@, schema@, from, to),
{
    Mutation::CreateRelation { relation_id: pair_relation_id(tag, from, to), schema: chat_schema(schema), from, to }
}

fn event(schema: &str, payload: ChatEvent) -> (e: EventProposal)
    ensures
        proposes(e, schema@, payload),
{
    EventProposal { schema: chat_schema(schema), payload }
}

fn copy_ids(ids: &Vec<EntityId>) -> (c: Vec<EntityId>)
    ensures
        c@ == ids@,
{
    let mut out: Vec<EntityId> = Vec::new();
    let mut k: usize = 0;
    while k < ids.len()
        invariant
            k <= ids@.len(),
            out@ == ids@.take(k as int),
        decreases ids@.len() - k,
    {
        out.push(ids[k]);
        proof {
            assert(ids@.take(k + 1) =~= ids@.take(k as int).push(ids@[k as int]));
        }
        k = k + 1;
    }
    proof {
        assert(ids@.take(k as int) =~= ids@);
    }
    out
}

/// The entity a command creates as its subject.
pub open spec fn command_entity(id: Seq<u8>) -> EntityId {
    EntityId(uuid_number(id) as u128)
}

/// The entity a command derives for `role`.
pub open spec fn derived_entity(id: Seq<u8>, role: Seq<char>) -> EntityId {
    EntityId(uuid_number(uuid_from_digest(sha256_of(framed(entity_domain(), seq![id, vstd::utf8::encode_utf8(role)])))) as u128)
}

/// `None` as no identifiers, `Some(x)` as `x` alone.
pub open spec fn optional_ids(o: Option<EntityId>) -> Seq<EntityId> {
    match o {
        Some(x) => seq![x],
        None => Seq::empty(),
    }
}

/// The reads a send asks for first: the conversation and participant
/// entities, the relation between them, the participant's identity, the
/// conversation's state, then for the parent and the replaced message (each
/// where given) the message entity and its state.
pub open spec fn send_reads(qs: Seq<SystemReadRequest>, c: SendMessageCommand) -> bool {
    let refs = optional_ids(c.parent_message_id) + optional_ids(c.alternative_of);
    &&& qs.len() == 5 + 2 * refs.len()
    &&& reads_entity(qs[0], c.conversation_id)
    &&& reads_entity(qs[1], c.participant_id)
    &&& reads_relation(qs[2], relation_key("conversation-participant"@, c.conversation_id, c.participant_id))
    &&& reads_facet(qs[3], FacetTarget::Entity(c.participant_id), crate::chat_view::PARTICIPANT_IDENTITY_FACET@)
    &&& reads_facet(qs[4], FacetTarget::Entity(c.conversation_id), crate::chat_view::CONVERSATION_STATE_FACET@)
    &&& forall|j: int|
        0 <= j < refs.len() ==> reads_entity(qs[5 + 2 * j], #[trigger] refs[j]) && reads_facet(
            qs[6 + 2 * j],
            FacetTarget::Entity(refs[j]),
            crate::chat_view::MESSAGE_STATE_FACET@,
        )
}

/// The checks a send passes before anything is proposed, in order, ending in
/// the conversation's state: the conversation and participant entities and
/// their relation, the participant's identity and the actor's authority over
/// it, the conversation's state, the parent and the replaced message in the
/// conversation, and a replaced message with the same author and parent.
pub open spec fn send_checks(reads: Seq<SystemReadResult>, command: SystemCommand, c: SendMessageCommand) -> Result<
    ConversationState,
    SystemStop,
> {
    let conversation = c.conversation_id;
    let participant = c.participant_id;
    match entity_check(reads, conversation, CONVERSATION_ENTITY@) {
        Err(e) => Err(e),
        Ok(_) => match entity_check(reads, participant, PARTICIPANT_ENTITY@) {
            Err(e) => Err(e),
            Ok(_) => match relation_check(
                reads,
                relation_key("conversation-participant"@, conversation, participant),
                CONVERSATION_PARTICIPANT_RELATION@,
                conversation,
                participant,
            ) {
                Err(e) => Err(e),
                Ok(_) => match participant_lookup(reads, participant) {
                    Err(e) => Err(e),
                    Ok(identity) => if !authorized(command.principal, command.actor, identity.binding) {
                        Err(SystemStop::Unauthorized)
                    } else {
                        match conversation_lookup(reads, conversation) {
                            Err(e) => Err(e),
                            Ok(state) => match reference_check(reads, c.parent_message_id, conversation) {
                                Err(e) => Err(e),
                                Ok(_) => match reference_check(reads, c.alternative_of, conversation) {
                                    Err(e) => Err(e),
                                    Ok(alternative) => match alternative {
                                        Some(a) => if a.author_participant_id != participant || a.parent_message_id
                                            != c.parent_message_id {
                                            Err(SystemStop::InvalidCommand)
                                        } else {
                                            Ok(state)
                                        },
                                        None => Ok(state),
                                    },
                                },
                            },
                        }
                    },
                },
            },
        },
    }
}

/// The transaction of a send: the message and its first revision, the
/// message's state and the revision's content, the relations to the
/// conversation, the author, the revision, the parent and the replaced
/// message (each where given), the conversation's state with the message
/// appended and selected as leaf, and the message-added event.
pub open spec fn message_added(command: SystemCommand, c: SendMessageCommand, state: ConversationState, t: Transaction) -> bool {
    let conversation = c.conversation_id;
    let participant = c.participant_id;
    let message = command_entity(command.id@);
    let revision = derived_entity(command.id@, "initial-revision"@);
    let ms = t.mutations@;
    let np: int = optional_ids(c.parent_message_id).len() as int;
    let n: int = 8 + np + optional_ids(c.alternative_of).len();
    &&& ms.len() == n
    &&& creates_entity(ms[0], message, MESSAGE_ENTITY@)
    &&& creates_entity(ms[1], revision, MESSAGE_REVISION_ENTITY@)
    &&& sets_facet(ms[2], FacetTarget::Entity(message), crate::chat_view::MESSAGE_STATE_FACET@)
    &&& set_payload(ms[2]) == FacetPayload::Message(
        MessageState {
            conversation_id: conversation,
            author_participant_id: participant,
            parent_message_id: c.parent_message_id,
            alternative_of: c.alternative_of,
            current_revision: revision,
        },
    )
    &&& sets_facet(ms[3], FacetTarget::Entity(revision), crate::chat_view::MESSAGE_CONTENT_FACET@)
    &&& set_payload(ms[3]) matches FacetPayload::Content(content)
    &&& crate::chat_view::same_blocks(content.blocks@, c.blocks@)
    &&& content.effective_at == command.effective_at
    &&& creates_relation(ms[4], "conversation-message"@, CONVERSATION_MESSAGE_RELATION@, conversation, message)
    &&& creates_relation(ms[5], "message-author"@, MESSAGE_AUTHOR_RELATION@, message, participant)
    &&& creates_relation(ms[6], "message-revision"@, MESSAGE_REVISION_RELATION@, message, revision)
    &&& c.parent_message_id matches Some(p) ==> creates_relation(ms[7], "message-parent"@, MESSAGE_PARENT_RELATION@, message, p)
    &&& c.alternative_of matches Some(a) ==> creates_relation(ms[7 + np], "message-variant"@, MESSAGE_VARIANT_RELATION@, message, a)
    &&& sets_facet(ms[n - 1], FacetTarget::Entity(conversation), crate::chat_view::CONVERSATION_STATE_FACET@)
    &&& conversation_is(set_payload(ms[n - 1]), state.title, Some(message), state.participant_ids@, state.message_ids@.push(message))
    &&& t.events@.len() == 1
    &&& proposes(
        t.events@[0],
        MESSAGE_ADDED_EVENT@,
        ChatEvent::MessageAdded(
            MessageAddedEvent {
                conversation_id: conversation,
                message_id: message,
                revision_id: revision,
                participant_id: participant,
                parent_message_id: c.parent_message_id,
                alternative_of: c.alternative_of,
            },
        ),
    )
}

/// How an evaluation ends: stopped early, asking for reads, or with a
/// transaction.
#[derive(Debug, Clone, Copy, PartialEq, Eq, Structural)]
pub enum Outcome {
    Stop(SystemStop),
    Reads,
    Done,
}

/// How a send ends: refused for invalid blocks or a parent that is also the
/// replaced message; asking for its reads where none are answered; stopped
/// by the first failing check; refused where the conversation with the
/// message appended is invalid; otherwise done.
pub open spec fn send_outcome(reads: Seq<SystemReadResult>, command: SystemCommand, c: SendMessageCommand) -> Outcome {
    if blocks_error(c.blocks@) is Some {
        Outcome::Stop(SystemStop::InvalidCommand)
    } else if c.parent_message_id is Some && c.parent_message_id == c.alternative_of {
        Outcome::Stop(SystemStop::InvalidCommand)
    } else if reads.len() == 0 {
        Outcome::Reads
    } else {
        match send_checks(reads, command, c) {
            Err(e) => Outcome::Stop(e),
            Ok(state) => {
                let message = command_entity(command.id@);
                if state_error(state.title, Some(message), state.participant_ids@, state.message_ids@.push(message)) is Some {
                    Outcome::Stop(SystemStop::InvalidCommand)
                } else {
                    Outcome::Done
                }
            },
        }
    }
}

fn send_message_reads(c: &SendMessageCommand) -> (qs: Vec<SystemReadRequest>)
    ensures
        send_reads(qs@, *c),
{
    let mut qs: Vec<SystemReadRequest> = Vec::new();
    qs.push(entity_read(c.conversation_id));
    qs.push(entity_read(c.participant_id));
    qs.push(relation_read("conversation-participant", c.conversation_id, c.participant_id));
    qs.push(facet_read(FacetTarget::Entity(c.participant_id), crate::chat_view::PARTICIPANT_IDENTITY_FACET));
    qs.push(facet_read(FacetTarget::Entity(c.conversation_id), crate::chat_view::CONVERSATION_STATE_FACET));
    let ghost base = qs@;
    match c.parent_message_id {
        Some(p) => {
            qs.push(entity_read(p));
            qs.push(facet_read(FacetTarget::Entity(p), crate::chat_view::MESSAGE_STATE_FACET));
        },
        None => {},
    }
    let ghost mid = qs@;
    match c.alternative_of {
        Some(a) => {
            qs.push(entity_read(a));
            qs.push(facet_read(FacetTarget::Entity(a), crate::chat_view::MESSAGE_STATE_FACET));
        },
        None => {},
    }
    proof {
        let refs = optional_ids(c.parent_message_id) + optional_ids(c.alternative_of);
        assert forall|j: int| 0 <= j < refs.len() implies reads_entity(qs@[5 + 2 * j], #[trigger] refs[j]) && reads_facet(
            qs@[6 + 2 * j],
            FacetTarget::Entity(refs[j]),
            crate::chat_view::MESSAGE_STATE_FACET@,
        ) by {
            if j == 0 && c.parent_message_id is Some {
                assert(qs@[5] == mid[5] && qs@[6] == mid[6]);
            }
        }
        assert(reads_entity(qs@[0], c.conversation_id) && qs@[0] == base[0]);
        assert(qs@[1] == base[1] && qs@[2] == base[2] && qs@[3] == base[3] && qs@[4] == base[4]);
    }
    qs
}

fn copy_state(state: &ConversationState) -> (c: ConversationState)
    ensures
        crate::chat_view::same_optional_text(c.title, state.title),
        c.selected_leaf == state.selected_leaf,
        c.participant_ids@ == state.participant_ids@,
        c.message_ids@ == state.message_ids@,
{
    ConversationState {
        title: crate::chat_view::copy_text(&state.title),
        selected_leaf: state.selected_leaf,
        participant_ids: copy_ids(&state.participant_ids),
        message_ids: copy_ids(&state.message_ids),
    }
}

/// Evaluates a send of `c` as a participant of a conversation.
#[verifier::rlimit(60)]
#[verifier::spinoff_prover]
fn evaluate_send_message(request: &SystemRequest, c: &SendMessageCommand) -> (r: Result<SystemResponse, SystemStop>)
    ensures
        match send_outcome(request.reads@, request.command, *c) {
            Outcome::Stop(e) => r == Err::<SystemResponse, SystemStop>(e),
            Outcome::Reads => r matches Ok(SystemResponse::Read { requests }) && send_reads(requests@, *c),
            Outcome::Done => r matches Ok(SystemResponse::Transaction { transaction }) && message_added(
                request.command,
                *c,
                conversation_lookup(request.reads@, c.conversation_id)->Ok_0,
                transaction,
            ),
        },
{
    if validate_blocks(&c.blocks).is_err() {
        return Err(SystemStop::InvalidCommand);
    }
    match c.parent_message_id {
        Some(p) => match c.alternative_of {
            Some(a) => if p == a {
                return Err(SystemStop::InvalidCommand);
            },
            None => {},
        },
        None => {},
    }
    let reads = &request.reads;
    if reads.len() == 0 {
        return Ok(SystemResponse::Read { requests: send_message_reads(c) });
    }
    let conversation = c.conversation_id;
    let participant = c.participant_id;
    expect_entity(reads, conversation, CONVERSATION_ENTITY)?;
    expect_entity(reads, participant, PARTICIPANT_ENTITY)?;
    expect_relation(reads, "conversation-participant", CONVERSATION_PARTICIPANT_RELATION, conversation, participant)?;
    let identity = expect_participant(reads, participant)?;
    authorize_participant(&request.command, identity.binding)?;
    let state = expect_conversation(reads, conversation)?;
    validate_message_reference(reads, c.parent_message_id, conversation)?;
    match validate_message_reference(reads, c.alternative_of, conversation)? {
        Some(a) => {
            if a.author_participant_id != participant || a.parent_message_id != c.parent_message_id {
                return Err(SystemStop::InvalidCommand);
            }
        },
        None => {},
    }
    let message = command_entity_id(request.command.id);
    let revision = derived_entity_id(request.command.id, "initial-revision");
    let mut mutations: Vec<Mutation> = Vec::new();
    mutations.push(create_entity(message, MESSAGE_ENTITY));
    mutations.push(create_entity(revision, MESSAGE_REVISION_ENTITY));
    mutations.push(
        set_facet(
            FacetTarget::Entity(message),
            crate::chat_view::MESSAGE_STATE_FACET,
            FacetPayload::Message(
                MessageState {
                    conversation_id: conversation,
                    author_participant_id: participant,
                    parent_message_id: c.parent_message_id,
                    alternative_of: c.alternative_of,
                    current_revision: revision,
                },
            ),
        ),
    );
    mutations.push(
        set_facet(
            FacetTarget::Entity(revision),
            crate::chat_view::MESSAGE_CONTENT_FACET,
            FacetPayload::Content(
                MessageContent { blocks: crate::chat_view::copy_blocks(&c.blocks), effective_at: request.command.effective_at },
            ),
        ),
    );
    mutations.push(create_relation("conversation-message", CONVERSATION_MESSAGE_RELATION, conversation, message));
    mutations.push(create_relation("message-author", MESSAGE_AUTHOR_RELATION, message, participant));
    mutations.push(create_relation("message-revision", MESSAGE_REVISION_RELATION, message, revision));
    let ghost fixed = mutations@;
    match c.parent_message_id {
        Some(p) => mutations.push(create_relation("message-parent", MESSAGE_PARENT_RELATION, message, p)),
        None => {},
    }
    let ghost with_parent = mutations@;
    match c.alternative_of {
        Some(a) => mutations.push(create_relation("message-variant", MESSAGE_VARIANT_RELATION, message, a)),
        None => {},
    }
    let ghost with_refs = mutations@;
    let mut updated = copy_state(state);
    updated.message_ids.push(message);
    updated.selected_leaf = Some(message);
    if updated.validate().is_err() {
        return Err(SystemStop::InvalidCommand);
    }
    mutations.push(set_facet(FacetTarget::Entity(conversation), crate::chat_view::CONVERSATION_STATE_FACET, FacetPayload::Conversation(updated)));
    let mut events: Vec<EventProposal> = Vec::new();
    events.push(
        event(
            MESSAGE_ADDED_EVENT,
            ChatEvent::MessageAdded(
                MessageAddedEvent {
                    conversation_id: conversation,
                    message_id: message,
                    revision_id: revision,
                    participant_id: participant,
                    parent_message_id: c.parent_message_id,
                    alternative_of: c.alternative_of,
                },
            ),
        ),
    );
    proof {
        let np: int = optional_ids(c.parent_message_id).len() as int;
        assert(mutations@[0] == fixed[0] && mutations@[1] == fixed[1] && mutations@[2] == fixed[2]);
        assert(mutations@[3] == fixed[3] && mutations@[4] == fixed[4] && mutations@[5] == fixed[5] && mutations@[6] == fixed[6]);
        if c.parent_message_id is Some {
            assert(mutations@[7] == with_parent[7]);
        }
        if c.alternative_of is Some {
            assert(mutations@[7 + np] == with_refs[7 + np]);
        }
    }
    Ok(SystemResponse::Transaction { transaction: Transaction { mutations, events } })
}

/// The edited message's state, once the message entity checks out.
pub open spec fn edit_state(reads: Seq<SystemReadResult>, c: EditMessageCommand) -> Result<MessageState, SystemStop> {
    match entity_check(reads, c.message_id, MESSAGE_ENTITY@) {
        Err(e) => Err(e),
        Ok(_) => message_lookup(reads, c.message_id),
    }
}

/// The checks on an edited message's author: the participant entity, its
/// relation to the conversation, its identity and the actor's authority
/// over it.
pub open spec fn author_checks(reads: Seq<SystemReadResult>, command: SystemCommand, state: MessageState) -> Result<(), SystemStop> {
    let author = state.author_participant_id;
    match entity_check(reads, author, PARTICIPANT_ENTITY@) {
        Err(e) => Err(e),
        Ok(_) => match relation_check(
            reads,
            relation_key("conversation-participant"@, state.conversation_id, author),
            CONVERSATION_PARTICIPANT_RELATION@,
            state.conversation_id,
            author,
        ) {
            Err(e) => Err(e),
            Ok(_) => match participant_lookup(reads, author) {
                Err(e) => Err(e),
                Ok(identity) => if authorized(command.principal, command.actor, identity.binding) {
                    Ok(())
                } else {
                    Err(SystemStop::Unauthorized)
                },
            },
        },
    }
}

/// How an edit ends: refused for invalid blocks; asking for the message and
/// its state where nothing is answered; stopped by a failing message check;
/// asking for the author where its identity is not answered; stopped by a
/// failing author check; otherwise done.
pub open spec fn edit_outcome(reads: Seq<SystemReadResult>, command: SystemCommand, c: EditMessageCommand) -> Outcome {
    if blocks_error(c.blocks@) is Some {
        Outcome::Stop(SystemStop::InvalidCommand)
    } else if reads.len() == 0 {
        Outcome::Reads
    } else {
        match edit_state(reads, c) {
            Err(e) => Outcome::Stop(e),
            Ok(state) => if first_facet(
                reads,
                FacetTarget::Entity(state.author_participant_id),
                crate::chat_view::PARTICIPANT_IDENTITY_FACET@,
            ) is None {
                Outcome::Reads
            } else {
                match author_checks(reads, command, state) {
                    Err(e) => Outcome::Stop(e),
                    Ok(_) => Outcome::Done,
                }
            },
        }
    }
}

/// The reads an edit asks for: with nothing answered, the message and its
/// state; then the author entity, its relation to the conversation and its
/// identity.
pub open spec fn edit_reads(reads: Seq<SystemReadResult>, qs: Seq<SystemReadRequest>, c: EditMessageCommand) -> bool {
    if reads.len() == 0 {
        &&& qs.len() == 2
        &&& reads_entity(qs[0], c.message_id)
        &&& reads_facet(qs[1], FacetTarget::Entity(c.message_id), crate::chat_view::MESSAGE_STATE_FACET@)
    } else {
        let state = edit_state(reads, c)->Ok_0;
        let author = state.author_participant_id;
        &&& qs.len() == 3
        &&& reads_entity(qs[0], author)
        &&& reads_relation(qs[1], relation_key("conversation-participant"@, state.conversation_id, author))
        &&& reads_facet(qs[2], FacetTarget::Entity(author), crate::chat_view::PARTICIPANT_IDENTITY_FACET@)
    }
}

/// The transaction of an edit: the new revision and its content, the
/// message's state pointing at it, the relation from the message to it, and
/// the message-edited event.
pub open spec fn message_edited(command: SystemCommand, c: EditMessageCommand, state: MessageState, t: Transaction) -> bool {
    let revision = derived_entity(command.id@, "edited-revision"@);
    let ms = t.mutations@;
    &&& ms.len() == 4
    &&& creates_entity(ms[0], revision, MESSAGE_REVISION_ENTITY@)
    &&& sets_facet(ms[1], FacetTarget::Entity(revision), crate::chat_view::MESSAGE_CONTENT_FACET@)
    &&& set_payload(ms[1]) matches FacetPayload::Content(content)
    &&& crate::chat_view::same_blocks(content.blocks@, c.blocks@)
    &&& content.effective_at == command.effective_at
    &&& sets_facet(ms[2], FacetTarget::Entity(c.message_id), crate::chat_view::MESSAGE_STATE_FACET@)
    &&& set_payload(ms[2]) == FacetPayload::Message(MessageState { current_revision: revision, ..state })
    &&& creates_relation(ms[3], "message-revision"@, MESSAGE_REVISION_RELATION@, c.message_id, revision)
    &&& t.events@.len() == 1
    &&& proposes(
        t.events@[0],
        MESSAGE_EDITED_EVENT@,
        ChatEvent::MessageEdited(
            MessageEditedEvent { message_id: c.message_id, previous_revision_id: state.current_revision, revision_id: revision },
        ),
    )
}

/// Evaluates an edit of `c`'s message by its author.
#[verifier::rlimit(40)]
#[verifier::spinoff_prover]
fn evaluate_edit_message(request: &SystemRequest, c: &EditMessageCommand) -> (r: Result<SystemResponse, SystemStop>)
    ensures
        match edit_outcome(request.reads@, request.command, *c) {
            Outcome::Stop(e) => r == Err::<SystemResponse, SystemStop>(e),
            Outcome::Reads => r matches Ok(SystemResponse::Read { requests }) && edit_reads(request.reads@, requests@, *c),
            Outcome::Done => r matches Ok(SystemResponse::Transaction { transaction }) && message_edited(
                request.command,
                *c,
                edit_state(request.reads@, *c)->Ok_0,
                transaction,
            ),
        },
{
    if validate_blocks(&c.blocks).is_err() {
        return Err(SystemStop::InvalidCommand);
    }
    let reads = &request.reads;
    if reads.len() == 0 {
        let mut requests: Vec<SystemReadRequest> = Vec::new();
        requests.push(entity_read(c.message_id));
        requests.push(facet_read(FacetTarget::Entity(c.message_id), crate::chat_view::MESSAGE_STATE_FACET));
        return Ok(SystemResponse::Read { requests });
    }
    expect_entity(reads, c.message_id, MESSAGE_ENTITY)?;
    let state = expect_message(reads, c.message_id)?;
    let author = state.author_participant_id;
    if find_facet(reads, FacetTarget::Entity(author), crate::chat_view::PARTICIPANT_IDENTITY_FACET).is_none() {
        let mut requests: Vec<SystemReadRequest> = Vec::new();
        requests.push(entity_read(author));
        requests.push(relation_read("conversation-participant", state.conversation_id, author));
        requests.push(facet_read(FacetTarget::Entity(author), crate::chat_view::PARTICIPANT_IDENTITY_FACET));
        return Ok(SystemResponse::Read { requests });
    }
    expect_entity(reads, author, PARTICIPANT_ENTITY)?;
    expect_relation(reads, "conversation-participant", CONVERSATION_PARTICIPANT_RELATION, state.conversation_id, author)?;
    let identity = expect_participant(reads, author)?;
    authorize_participant(&request.command, identity.binding)?;
    let revision = derived_entity_id(request.command.id, "edited-revision");
    let mut mutations: Vec<Mutation> = Vec::new();
    mutations.push(create_entity(revision, MESSAGE_REVISION_ENTITY));
    mutations.push(
        set_facet(
            FacetTarget::Entity(revision),
            crate::chat_view::MESSAGE_CONTENT_FACET,
            FacetPayload::Content(
                MessageContent { blocks: crate::chat_view::copy_blocks(&c.blocks), effective_at: request.command.effective_at },
            ),
        ),
    );
    mutations.push(
        set_facet(
            FacetTarget::Entity(c.message_id),
            crate::chat_view::MESSAGE_STATE_FACET,
            FacetPayload::Message(MessageState { current_revision: revision, ..state }),
        ),
    );
    mutations.push(create_relation("message-revision", MESSAGE_REVISION_RELATION, c.message_id, revision));
    let mut events: Vec<EventProposal> = Vec::new();
    events.push(
        event(
            MESSAGE_EDITED_EVENT,
            ChatEvent::MessageEdited(
                MessageEditedEvent { message_id: c.message_id, previous_revision_id: state.current_revision, revision_id: revision },
            ),
        ),
    );
    Ok(SystemResponse::Transaction { transaction: Transaction { mutations, events } })
}

/// How a branch selection ends: asking for its reads where none are
/// answered; stopped by a failing check of the conversation, the message,
/// their relation or the conversation's state; refused unless the principal
/// acts directly, or where the state with the new leaf is invalid; otherwise
/// done.
pub open spec fn select_outcome(reads: Seq<SystemReadResult>, command: SystemCommand, c: SelectBranchCommand) -> Outcome {
    if reads.len() == 0 {
        Outcome::Reads
    } else {
        match entity_check(reads, c.conversation_id, CONVERSATION_ENTITY@) {
            Err(e) => Outcome::Stop(e),
            Ok(_) => match entity_check(reads, c.message_id, MESSAGE_ENTITY@) {
                Err(e) => Outcome::Stop(e),
                Ok(_) => match relation_check(
                    reads,
                    relation_key("conversation-message"@, c.conversation_id, c.message_id),
                    CONVERSATION_MESSAGE_RELATION@,
                    c.conversation_id,
                    c.message_id,
                ) {
                    Err(e) => Outcome::Stop(e),
                    Ok(_) => match conversation_lookup(reads, c.conversation_id) {
                        Err(e) => Outcome::Stop(e),
                        Ok(state) => if !direct_principal(command) {
                            Outcome::Stop(SystemStop::Unauthorized)
                        } else if state_error(state.title, Some(c.message_id), state.participant_ids@, state.message_ids@) is Some {
                            Outcome::Stop(SystemStop::InvalidCommand)
                        } else {
                            Outcome::Done
                        },
                    },
                },
            },
        }
    }
}

/// The reads a branch selection asks for: the conversation and message
/// entities, their relation and the conversation's state.
pub open spec fn select_reads(qs: Seq<SystemReadRequest>, c: SelectBranchCommand) -> bool {
    &&& qs.len() == 4
    &&& reads_entity(qs[0], c.conversation_id)
    &&& reads_entity(qs[1], c.message_id)
    &&& reads_relation(qs[2], relation_key("conversation-message"@, c.conversation_id, c.message_id))
    &&& reads_facet(qs[3], FacetTarget::Entity(c.conversation_id), crate::chat_view::CONVERSATION_STATE_FACET@)
}

/// The transaction of a branch selection: the conversation's state with the
/// message as leaf, and the branch-selected event.
pub open spec fn branch_selected(c: SelectBranchCommand, state: ConversationState, t: Transaction) -> bool {
    &&& t.mutations@.len() == 1
    &&& sets_facet(t.mutations@[0], FacetTarget::Entity(c.conversation_id), crate::chat_view::CONVERSATION_STATE_FACET@)
    &&& conversation_is(set_payload(t.mutations@[0]), state.title, Some(c.message_id), state.participant_ids@, state.message_ids@)
    &&& t.events@.len() == 1
    &&& proposes(
        t.events@[0],
        BRANCH_SELECTED_EVENT@,
        ChatEvent::BranchSelected(BranchSelectedEvent { conversation_id: c.conversation_id, message_id: c.message_id }),
    )
}

/// Evaluates a selection of `c`'s message as the conversation's leaf.
#[verifier::rlimit(40)]
#[verifier::spinoff_prover]
fn evaluate_select_branch(request: &SystemRequest, c: &SelectBranchCommand) -> (r: Result<SystemResponse, SystemStop>)
    ensures
        match select_outcome(request.reads@, request.command, *c) {
            Outcome::Stop(e) => r == Err::<SystemResponse, SystemStop>(e),
            Outcome::Reads => r matches Ok(SystemResponse::Read { requests }) && select_reads(requests@, *c),
            Outcome::Done => r matches Ok(SystemResponse::Transaction { transaction }) && branch_selected(
                *c,
                conversation_lookup(request.reads@, c.conversation_id)->Ok_0,
                transaction,
            ),
        },
{
    let reads = &request.reads;
    if reads.len() == 0 {
        let mut requests: Vec<SystemReadRequest> = Vec::new();
        requests.push(entity_read(c.conversation_id));
        requests.push(entity_read(c.message_id));
        requests.push(relation_read("conversation-message", c.conversation_id, c.message_id));
        requests.push(facet_read(FacetTarget::Entity(c.conversation_id), crate::chat_view::CONVERSATION_STATE_FACET));
        return Ok(SystemResponse::Read { requests });
    }
    expect_entity(reads, c.conversation_id, CONVERSATION_ENTITY)?;
    expect_entity(reads, c.message_id, MESSAGE_ENTITY)?;
    expect_relation(reads, "conversation-message", CONVERSATION_MESSAGE_RELATION, c.conversation_id, c.message_id)?;
    let state = expect_conversation(reads, c.conversation_id)?;
    require_direct_principal(&request.command)?;
    let mut updated = copy_state(state);
    updated.selected_leaf = Some(c.message_id);
    if updated.validate().is_err() {
        return Err(SystemStop::InvalidCommand);
    }
    let mut mutations: Vec<Mutation> = Vec::new();
    mutations.push(set_facet(FacetTarget::Entity(c.conversation_id), crate::chat_view::CONVERSATION_STATE_FACET, FacetPayload::Conversation(updated)));
    let mut events: Vec<EventProposal> = Vec::new();
    events.push(
        event(
            BRANCH_SELECTED_EVENT,
            ChatEvent::BranchSelected(BranchSelectedEvent { conversation_id: c.conversation_id, message_id: c.message_id }),
        ),
    );
    Ok(SystemResponse::Transaction { transaction: Transaction { mutations, events } })
}

/// How a request for an alternative ends: asking for its reads where none
/// are answered; refused unless the principal acts directly; stopped by a
/// failing check of the conversation, message and participant entities,
/// their relations or the message's state; refused where the message is not
/// in the conversation or not by the participant; otherwise done.
pub open spec fn alternative_outcome(reads: Seq<SystemReadResult>, command: SystemCommand, c: RequestAlternativeCommand) -> Outcome {
    if reads.len() == 0 {
        Outcome::Reads
    } else if !direct_principal(command) {
        Outcome::Stop(SystemStop::Unauthorized)
    } else {
        match entity_check(reads, c.conversation_id, CONVERSATION_ENTITY@) {
            Err(e) => Outcome::Stop(e),
            Ok(_) => match entity_check(reads, c.message_id, MESSAGE_ENTITY@) {
                Err(e) => Outcome::Stop(e),
                Ok(_) => match entity_check(reads, c.participant_id, PARTICIPANT_ENTITY@) {
                    Err(e) => Outcome::Stop(e),
                    Ok(_) => match relation_check(
                        reads,
                        relation_key("conversation-message"@, c.conversation_id, c.message_id),
                        CONVERSATION_MESSAGE_RELATION@,
                        c.conversation_id,
                        c.message_id,
                    ) {
                        Err(e) => Outcome::Stop(e),
                        Ok(_) => match relation_check(
                            reads,
                            relation_key("conversation-participant"@, c.conversation_id, c.participant_id),
                            CONVERSATION_PARTICIPANT_RELATION@,
                            c.conversation_id,
                            c.participant_id,
                        ) {
                            Err(e) => Outcome::Stop(e),
                            Ok(_) => match message_lookup(reads, c.message_id) {
                                Err(e) => Outcome::Stop(e),
                                Ok(state) => if state.conversation_id != c.conversation_id || state.author_participant_id
                                    != c.participant_id {
                                    Outcome::Stop(SystemStop::MissingState)
                                } else {
                                    Outcome::Done
                                },
                            },
                        },
                    },
                },
            },
        }
    }
}

/// The reads a request for an alternative asks for: the conversation,
/// message and participant entities, the conversation's relations to the
/// message and to the participant, and the message's state.
pub open spec fn alternative_reads(qs: Seq<SystemReadRequest>, c: RequestAlternativeCommand) -> bool {
    &&& qs.len() == 6
    &&& reads_entity(qs[0], c.conversation_id)
    &&& reads_entity(qs[1], c.message_id)
    &&& reads_entity(qs[2], c.participant_id)
    &&& reads_relation(qs[3], relation_key("conversation-message"@, c.conversation_id, c.message_id))
    &&& reads_relation(qs[4], relation_key("conversation-participant"@, c.conversation_id, c.participant_id))
    &&& reads_facet(qs[5], FacetTarget::Entity(c.message_id), crate::chat_view::MESSAGE_STATE_FACET@)
}

/// The transaction of a request for an alternative: no change, only the
/// alternative-requested event.
pub open spec fn alternative_requested(c: RequestAlternativeCommand, t: Transaction) -> bool {
    &&& t.mutations@.len() == 0
    &&& t.events@.len() == 1
    &&& proposes(
        t.events@[0],
        ALTERNATIVE_REQUESTED_EVENT@,
        ChatEvent::AlternativeRequested(
            AlternativeRequestedEvent { conversation_id: c.conversation_id, message_id: c.message_id, participant_id: c.participant_id },
        ),
    )
}

/// Evaluates a request for an alternative to `c`'s message.
#[verifier::rlimit(40)]
#[verifier::spinoff_prover]
fn evaluate_request_alternative(request: &SystemRequest, c: &RequestAlternativeCommand) -> (r: Result<SystemResponse, SystemStop>)
    ensures
        match alternative_outcome(request.reads@, request.command, *c) {
            Outcome::Stop(e) => r == Err::<SystemResponse, SystemStop>(e),
            Outcome::Reads => r matches Ok(SystemResponse::Read { requests }) && alternative_reads(requests@, *c),
            Outcome::Done => r matches Ok(SystemResponse::Transaction { transaction }) && alternative_requested(*c, transaction),
        },
{
    let reads = &request.reads;
    if reads.len() == 0 {
        let mut requests: Vec<SystemReadRequest> = Vec::new();
        requests.push(entity_read(c.conversation_id));
        requests.push(entity_read(c.message_id));
        requests.push(entity_read(c.participant_id));
        requests.push(relation_read("conversation-message", c.conversation_id, c.message_id));
        requests.push(relation_read("conversation-participant", c.conversation_id, c.participant_id));
        requests.push(facet_read(FacetTarget::Entity(c.message_id), crate::chat_view::MESSAGE_STATE_FACET));
        return Ok(SystemResponse::Read { requests });
    }
    require_direct_principal(&request.command)?;
    expect_entity(reads, c.conversation_id, CONVERSATION_ENTITY)?;
    expect_entity(reads, c.message_id, MESSAGE_ENTITY)?;
    expect_entity(reads, c.participant_id, PARTICIPANT_ENTITY)?;
    expect_relation(reads, "conversation-message", CONVERSATION_MESSAGE_RELATION, c.conversation_id, c.message_id)?;
    expect_relation(reads, "conversation-participant", CONVERSATION_PARTICIPANT_RELATION, c.conversation_id, c.participant_id)?;
    let state = expect_message(reads, c.message_id)?;
    if state.conversation_id != c.conversation_id || state.author_participant_id != c.participant_id {
        return Err(SystemStop::MissingState);
    }
    let mutations: Vec<Mutation> = Vec::new();
    let mut events: Vec<EventProposal> = Vec::new();
    events.push(
        event(
            ALTERNATIVE_REQUESTED_EVENT,
            ChatEvent::AlternativeRequested(
                AlternativeRequestedEvent { conversation_id: c.conversation_id, message_id: c.message_id, participant_id: c.participant_id },
            ),
        ),
    );
    Ok(SystemResponse::Transaction { transaction: Transaction { mutations, events } })
}

/// The binding a new participant gets, once the actor may ask for it: the
/// current principal and no controller need the principal acting directly;
/// an entity must be answered, present and the actor.
pub open spec fn binding_of(reads: Seq<SystemReadResult>, command: SystemCommand, b: ParticipantBindingRequest) -> Result<
    ParticipantBinding,
    SystemStop,
> {
    match b {
        ParticipantBindingRequest::CurrentPrincipal => if direct_principal(command) {
            Ok(ParticipantBinding::Principal { principal_id: command.principal })
        } else {
            Err(SystemStop::Unauthorized)
        },
        ParticipantBindingRequest::Entity { entity_id } => match first_entity(reads, entity_id) {
            None => Err(SystemStop::Transport),
            Some(None) => Err(SystemStop::MissingState),
            Some(Some(_)) => if command.actor == SystemActor::Entity(entity_id) {
                Ok(ParticipantBinding::Entity { entity_id })
            } else {
                Err(SystemStop::Unauthorized)
            },
        },
        ParticipantBindingRequest::Uncontrolled => if direct_principal(command) {
            Ok(ParticipantBinding::Uncontrolled)
        } else {
            Err(SystemStop::Unauthorized)
        },
    }
}

fn grant_binding(reads: &Vec<SystemReadResult>, command: &SystemCommand, b: ParticipantBindingRequest) -> (r: Result<
    ParticipantBinding,
    SystemStop,
>)
    ensures
        r == binding_of(reads@, *command, b),
{
    match b {
        ParticipantBindingRequest::CurrentPrincipal => {
            require_direct_principal(command)?;
            Ok(ParticipantBinding::Principal { principal_id: command.principal })
        },
        ParticipantBindingRequest::Entity { entity_id } => {
            expect_any_entity(reads, entity_id)?;
            if command.actor != SystemActor::Entity(entity_id) {
                return Err(SystemStop::Unauthorized);
            }
            Ok(ParticipantBinding::Entity { entity_id })
        },
        ParticipantBindingRequest::Uncontrolled => {
            require_direct_principal(command)?;
            Ok(ParticipantBinding::Uncontrolled)
        },
    }
}

/// How adding a participant ends: refused for an invalid name; asking for
/// its reads where none are answered; stopped by a failing check of the
/// conversation entity, the binding or the conversation's state; refused
/// where the state with the participant appended is invalid; otherwise done.
pub open spec fn add_outcome(reads: Seq<SystemReadResult>, command: SystemCommand, c: AddParticipantCommand) -> Outcome {
    if !required_text_ok(c.display_name@, MAX_PARTICIPANT_NAME_BYTES) {
        Outcome::Stop(SystemStop::InvalidCommand)
    } else if reads.len() == 0 {
        Outcome::Reads
    } else {
        match entity_check(reads, c.conversation_id, CONVERSATION_ENTITY@) {
            Err(e) => Outcome::Stop(e),
            Ok(_) => match binding_of(reads, command, c.binding) {
                Err(e) => Outcome::Stop(e),
                Ok(_) => match conversation_lookup(reads, c.conversation_id) {
                    Err(e) => Outcome::Stop(e),
                    Ok(state) => {
                        let participant = command_entity(command.id@);
                        if state_error(state.title, state.selected_leaf, state.participant_ids@.push(participant), state.message_ids@) is Some {
                            Outcome::Stop(SystemStop::InvalidCommand)
                        } else {
                            Outcome::Done
                        }
                    },
                },
            },
        }
    }
}

/// The reads adding a participant asks for: the conversation entity and
/// state, and the entity to bind, where one is.
pub open spec fn add_reads(qs: Seq<SystemReadRequest>, c: AddParticipantCommand) -> bool {
    &&& qs.len() == if c.binding is Entity { 3int } else { 2int }
    &&& reads_entity(qs[0], c.conversation_id)
    &&& reads_facet(qs[1], FacetTarget::Entity(c.conversation_id), crate::chat_view::CONVERSATION_STATE_FACET@)
    &&& c.binding matches ParticipantBindingRequest::Entity { entity_id } ==> reads_entity(qs[2], entity_id)
}

/// The transaction of adding a participant: the participant and its
/// identity, the conversation's state with it appended, the relation from
/// the conversation to it, and the participant-added event.
pub open spec fn participant_added(
    command: SystemCommand,
    c: AddParticipantCommand,
    binding: ParticipantBinding,
    state: ConversationState,
    t: Transaction,
) -> bool {
    let participant = command_entity(command.id@);
    let ms = t.mutations@;
    &&& ms.len() == 4
    &&& creates_entity(ms[0], participant, PARTICIPANT_ENTITY@)
    &&& sets_facet(ms[1], FacetTarget::Entity(participant), crate::chat_view::PARTICIPANT_IDENTITY_FACET@)
    &&& set_payload(ms[1]) matches FacetPayload::Participant(identity)
    &&& identity.display_name@ == c.display_name@
    &&& identity.binding == binding
    &&& sets_facet(ms[2], FacetTarget::Entity(c.conversation_id), crate::chat_view::CONVERSATION_STATE_FACET@)
    &&& conversation_is(
        set_payload(ms[2]),
        state.title,
        state.selected_leaf,
        state.participant_ids@.push(participant),
        state.message_ids@,
    )
    &&& creates_relation(ms[3], "conversation-participant"@, CONVERSATION_PARTICIPANT_RELATION@, c.conversation_id, participant)
    &&& t.events@.len() == 1
    &&& proposes(
        t.events@[0],
        PARTICIPANT_ADDED_EVENT@,
        ChatEvent::ParticipantAdded(ParticipantAddedEvent { conversation_id: c.conversation_id, participant_id: participant }),
    )
}

/// Evaluates adding the participant `c` describes.
#[verifier::rlimit(40)]
#[verifier::spinoff_prover]
fn evaluate_add_participant(request: &SystemRequest, c: &AddParticipantCommand) -> (r: Result<SystemResponse, SystemStop>)
    ensures
        match add_outcome(request.reads@, request.command, *c) {
            Outcome::Stop(e) => r == Err::<SystemResponse, SystemStop>(e),
            Outcome::Reads => r matches Ok(SystemResponse::Read { requests }) && add_reads(requests@, *c),
            Outcome::Done => r matches Ok(SystemResponse::Transaction { transaction }) && participant_added(
                request.command,
                *c,
                binding_of(request.reads@, request.command, c.binding)->Ok_0,
                conversation_lookup(request.reads@, c.conversation_id)->Ok_0,
                transaction,
            ),
        },
{
    if validate_participant_name(c.display_name.as_str()).is_err() {
        return Err(SystemStop::InvalidCommand);
    }
    let reads = &request.reads;
    if reads.len() == 0 {
        let mut requests: Vec<SystemReadRequest> = Vec::new();
        requests.push(entity_read(c.conversation_id));
        requests.push(facet_read(FacetTarget::Entity(c.conversation_id), crate::chat_view::CONVERSATION_STATE_FACET));
        match c.binding {
            ParticipantBindingRequest::Entity { entity_id } => requests.push(entity_read(entity_id)),
            _ => {},
        }
        return Ok(SystemResponse::Read { requests });
    }
    expect_entity(reads, c.conversation_id, CONVERSATION_ENTITY)?;
    let binding = grant_binding(reads, &request.command, c.binding)?;
    let participant = command_entity_id(request.command.id);
    let state = expect_conversation(reads, c.conversation_id)?;
    let mut updated = copy_state(state);
    updated.participant_ids.push(participant);
    if updated.validate().is_err() {
        return Err(SystemStop::InvalidCommand);
    }
    let mut mutations: Vec<Mutation> = Vec::new();
    mutations.push(create_entity(participant, PARTICIPANT_ENTITY));
    mutations.push(
        set_facet(
            FacetTarget::Entity(participant),
            crate::chat_view::PARTICIPANT_IDENTITY_FACET,
            FacetPayload::Participant(ParticipantIdentity { display_name: c.display_name.clone(), binding }),
        ),
    );
    mutations.push(set_facet(FacetTarget::Entity(c.conversation_id), crate::chat_view::CONVERSATION_STATE_FACET, FacetPayload::Conversation(updated)));
    mutations.push(create_relation("conversation-participant", CONVERSATION_PARTICIPANT_RELATION, c.conversation_id, participant));
    let mut events: Vec<EventProposal> = Vec::new();
    events.push(
        event(
            PARTICIPANT_ADDED_EVENT,
            ChatEvent::ParticipantAdded(ParticipantAddedEvent { conversation_id: c.conversation_id, participant_id: participant }),
        ),
    );
    Ok(SystemResponse::Transaction { transaction: Transaction { mutations, events } })
}

/// The conversations the world's chat index lists, by the first answer on
/// it: none where the facet is not set; refused where it holds something
/// other than an index; unanswered, failed.
pub open spec fn index_lookup(reads: Seq<SystemReadResult>) -> Result<Seq<EntityId>, SystemStop> {
    match first_facet(reads, FacetTarget::World, crate::chat_view::CHAT_WORLD_INDEX_FACET@) {
        None => Err(SystemStop::Transport),
        Some(None) => Ok(Seq::empty()),
        Some(Some(FacetPayload::WorldIndex(index))) => Ok(index.conversations@),
        Some(Some(_)) => Err(SystemStop::MissingState),
    }
}

/// How creating a conversation ends: refused for an overlong title; asking
/// for the world's chat index where it is not answered; stopped where the
/// index is not one; refused where the index with the conversation appended
/// is too long or repeats one; otherwise done.
pub open spec fn create_outcome(reads: Seq<SystemReadResult>, command: SystemCommand, c: CreateConversationCommand) -> Outcome {
    if c.title matches Some(t) && byte_len(t@) > MAX_CHAT_TITLE_BYTES {
        Outcome::Stop(SystemStop::InvalidCommand)
    } else if first_facet(reads, FacetTarget::World, crate::chat_view::CHAT_WORLD_INDEX_FACET@) is None {
        Outcome::Reads
    } else {
        match index_lookup(reads) {
            Err(e) => Outcome::Stop(e),
            Ok(ids) => {
                let extended = ids.push(command_entity(command.id@));
                if extended.len() > MAX_CHAT_CONVERSATIONS || !unique_ids(extended) {
                    Outcome::Stop(SystemStop::InvalidCommand)
                } else {
                    Outcome::Done
                }
            },
        }
    }
}

/// The read creating a conversation asks for: the world's chat index.
pub open spec fn create_reads(qs: Seq<SystemReadRequest>) -> bool {
    qs.len() == 1 && reads_facet(qs[0], FacetTarget::World, crate::chat_view::CHAT_WORLD_INDEX_FACET@)
}

/// The transaction of creating a conversation: the conversation, the index
/// with it appended, its empty state with the title, and the
/// conversation-created event.
pub open spec fn conversation_created(command: SystemCommand, c: CreateConversationCommand, ids: Seq<EntityId>, t: Transaction) -> bool {
    let conversation = command_entity(command.id@);
    let ms = t.mutations@;
    &&& ms.len() == 3
    &&& creates_entity(ms[0], conversation, CONVERSATION_ENTITY@)
    &&& sets_facet(ms[1], FacetTarget::World, crate::chat_view::CHAT_WORLD_INDEX_FACET@)
    &&& set_payload(ms[1]) matches FacetPayload::WorldIndex(index)
    &&& index.conversations@ == ids.push(conversation)
    &&& sets_facet(ms[2], FacetTarget::Entity(conversation), crate::chat_view::CONVERSATION_STATE_FACET@)
    &&& conversation_is(set_payload(ms[2]), c.title, None, Seq::empty(), Seq::empty())
    &&& t.events@.len() == 1
    &&& proposes(
        t.events@[0],
        CONVERSATION_CREATED_EVENT@,
        ChatEvent::ConversationCreated(ConversationCreatedEvent { conversation_id: conversation }),
    )
}

/// Evaluates creating the conversation `c` describes.
#[verifier::rlimit(40)]
#[verifier::spinoff_prover]
fn evaluate_create_conversation(request: &SystemRequest, c: &CreateConversationCommand) -> (r: Result<SystemResponse, SystemStop>)
    ensures
        match create_outcome(request.reads@, request.command, *c) {
            Outcome::Stop(e) => r == Err::<SystemResponse, SystemStop>(e),
            Outcome::Reads => r matches Ok(SystemResponse::Read { requests }) && create_reads(requests@),
            Outcome::Done => r matches Ok(SystemResponse::Transaction { transaction }) && conversation_created(
                request.command,
                *c,
                index_lookup(request.reads@)->Ok_0,
                transaction,
            ),
        },
{
    if validate_title(&c.title).is_err() {
        return Err(SystemStop::InvalidCommand);
    }
    let reads = &request.reads;
    let listed = match find_facet(reads, FacetTarget::World, crate::chat_view::CHAT_WORLD_INDEX_FACET) {
        None => {
            let mut requests: Vec<SystemReadRequest> = Vec::new();
            requests.push(facet_read(FacetTarget::World, crate::chat_view::CHAT_WORLD_INDEX_FACET));
            return Ok(SystemResponse::Read { requests });
        },
        Some(None) => Vec::new(),
        Some(Some(FacetPayload::WorldIndex(index))) => copy_ids(&index.conversations),
        Some(Some(_)) => return Err(SystemStop::MissingState),
    };
    let conversation = command_entity_id(request.command.id);
    let mut conversations = listed;
    conversations.push(conversation);
    let index = ChatWorldIndex { conversations };
    if index.validate().is_err() {
        return Err(SystemStop::InvalidCommand);
    }
    let mut mutations: Vec<Mutation> = Vec::new();
    mutations.push(create_entity(conversation, CONVERSATION_ENTITY));
    mutations.push(set_facet(FacetTarget::World, crate::chat_view::CHAT_WORLD_INDEX_FACET, FacetPayload::WorldIndex(index)));
    mutations.push(
        set_facet(
            FacetTarget::Entity(conversation),
            crate::chat_view::CONVERSATION_STATE_FACET,
            FacetPayload::Conversation(
                ConversationState {
                    title: crate::chat_view::copy_text(&c.title),
                    selected_leaf: None,
                    participant_ids: Vec::new(),
                    message_ids: Vec::new(),
                },
            ),
        ),
    );
    let mut events: Vec<EventProposal> = Vec::new();
    events.push(
        event(CONVERSATION_CREATED_EVENT, ChatEvent::ConversationCreated(ConversationCreatedEvent { conversation_id: conversation })),
    );
    Ok(SystemResponse::Transaction { transaction: Transaction { mutations, events } })
}

/// How an evaluation of `request` ends, by the command its schema names (in
/// the order create, add participant, send, edit, select branch, request
/// alternative): a schema naming none of them, or a payload that does not
/// decode as its schema says, is refused as an invalid command.
pub open spec fn system_outcome(request: SystemRequest) -> Outcome {
    let k = request.command.schema;
    let reads = request.reads@;
    let command = request.command;
    if is_schema(k, CREATE_CONVERSATION_COMMAND@) {
        match command.payload {
            CommandPayload::CreateConversation(c) => create_outcome(reads, command, c),
            _ => Outcome::Stop(SystemStop::InvalidCommand),
        }
    } else if is_schema(k, ADD_PARTICIPANT_COMMAND@) {
        match command.payload {
            CommandPayload::AddParticipant(c) => add_outcome(reads, command, c),
            _ => Outcome::Stop(SystemStop::InvalidCommand),
        }
    } else if is_schema(k, crate::chat_view::SEND_MESSAGE_COMMAND@) {
        match command.payload {
            CommandPayload::SendMessage(c) => send_outcome(reads, command, c),
            _ => Outcome::Stop(SystemStop::InvalidCommand),
        }
    } else if is_schema(k, EDIT_MESSAGE_COMMAND@) {
        match command.payload {
            CommandPayload::EditMessage(c) => edit_outcome(reads, command, c),
            _ => Outcome::Stop(SystemStop::InvalidCommand),
        }
    } else if is_schema(k, SELECT_BRANCH_COMMAND@) {
        match command.payload {
            CommandPayload::SelectBranch(c) => select_outcome(reads, command, c),
            _ => Outcome::Stop(SystemStop::InvalidCommand),
        }
    } else if is_schema(k, REQUEST_ALTERNATIVE_COMMAND@) {
        match command.payload {
            CommandPayload::RequestAlternative(c) => alternative_outcome(reads, command, c),
            _ => Outcome::Stop(SystemStop::InvalidCommand),
        }
    } else {
        Outcome::Stop(SystemStop::InvalidCommand)
    }
}

/// The reads asked for, by the command's payload.
pub open spec fn reads_asked(request: SystemRequest, qs: Seq<SystemReadRequest>) -> bool {
    match request.command.payload {
        CommandPayload::CreateConversation(_) => create_reads(qs),
        CommandPayload::AddParticipant(c) => add_reads(qs, c),
        CommandPayload::SendMessage(c) => send_reads(qs, c),
        CommandPayload::EditMessage(c) => edit_reads(request.reads@, qs, c),
        CommandPayload::SelectBranch(c) => select_reads(qs, c),
        CommandPayload::RequestAlternative(c) => alternative_reads(qs, c),
        CommandPayload::Undecodable => false,
    }
}

/// The transaction proposed, by the command's payload.
pub open spec fn transaction_proposed(request: SystemRequest, t: Transaction) -> bool {
    let reads = request.reads@;
    let command = request.command;
    match command.payload {
        CommandPayload::CreateConversation(c) => conversation_created(command, c, index_lookup(reads)->Ok_0, t),
        CommandPayload::AddParticipant(c) => participant_added(
            command,
            c,
            binding_of(reads, command, c.binding)->Ok_0,
            conversation_lookup(reads, c.conversation_id)->Ok_0,
            t,
        ),
        CommandPayload::SendMessage(c) => message_added(command, c, conversation_lookup(reads, c.conversation_id)->Ok_0, t),
        CommandPayload::EditMessage(c) => message_edited(command, c, edit_state(reads, c)->Ok_0, t),
        CommandPayload::SelectBranch(c) => branch_selected(c, conversation_lookup(reads, c.conversation_id)->Ok_0, t),
        CommandPayload::RequestAlternative(c) => alternative_requested(c, t),
        CommandPayload::Undecodable => false,
    }
}

/// The answer the contract fixes for a request depends on the request
/// alone: two requests with the same command and the same reads get the same
/// outcome, ask the same reads, and admit the same transactions (whose new
/// entities and relations are derived from the command's identifier).
pub proof fn law_system_answer_depends_on_request_alone(a: SystemRequest, b: SystemRequest)
    requires
        a.command == b.command,
        a.reads@ == b.reads@,
    ensures
        system_outcome(a) == system_outcome(b),
        forall|qs: Seq<SystemReadRequest>| reads_asked(a, qs) == #[trigger] reads_asked(b, qs),
        forall|t: Transaction| transaction_proposed(a, t) == #[trigger] transaction_proposed(b, t),
{
}

fn evaluate(request: &SystemRequest) -> (r: Result<SystemResponse, SystemStop>)
    ensures
        match system_outcome(*request) {
            Outcome::Stop(e) => r == Err::<SystemResponse, SystemStop>(e),
            Outcome::Reads => r matches Ok(SystemResponse::Read { requests }) && reads_asked(*request, requests@),
            Outcome::Done => r matches Ok(SystemResponse::Transaction { transaction }) && transaction_proposed(*request, transaction),
        },
{
    let k = &request.command.schema;
    if is_chat_schema(k, CREATE_CONVERSATION_COMMAND) {
        match &request.command.payload {
            CommandPayload::CreateConversation(c) => evaluate_create_conversation(request, c),
            _ => Err(SystemStop::InvalidCommand),
        }
    } else if is_chat_schema(k, ADD_PARTICIPANT_COMMAND) {
        match &request.command.payload {
            CommandPayload::AddParticipant(c) => evaluate_add_participant(request, c),
            _ => Err(SystemStop::InvalidCommand),
        }
    } else if is_chat_schema(k, crate::chat_view::SEND_MESSAGE_COMMAND) {
        match &request.command.payload {
            CommandPayload::SendMessage(c) => evaluate_send_message(request, c),
            _ => Err(SystemStop::InvalidCommand),
        }
    } else if is_chat_schema(k, EDIT_MESSAGE_COMMAND) {
        match &request.command.payload {
            CommandPayload::EditMessage(c) => evaluate_edit_message(request, c),
            _ => Err(SystemStop::InvalidCommand),
        }
    } else if is_chat_schema(k, SELECT_BRANCH_COMMAND) {
        match &request.command.payload {
            CommandPayload::SelectBranch(c) => evaluate_select_branch(request, c),
            _ => Err(SystemStop::InvalidCommand),
        }
    } else if is_chat_schema(k, REQUEST_ALTERNATIVE_COMMAND) {
        match &request.command.payload {
            CommandPayload::RequestAlternative(c) => evaluate_request_alternative(request, c),
            _ => Err(SystemStop::InvalidCommand),
        }
    } else {
        Err(SystemStop::InvalidCommand)
    }
}

/// Evaluates one chat command over the world reads answered so far. The
/// command's schema picks the evaluation; each first asks for the reads it
/// needs where none are answered, then checks the entities, relations and
/// states it reads, in order, and the actor's authority over the
/// participant it acts as, and either stops with the first failing check or
/// proposes the transaction that carries the command out.
pub fn evaluate_chat_world_system(request: &SystemRequest) -> (r: SystemResponse)
    ensures
        match system_outcome(*request) {
            Outcome::Stop(e) => system_stop_is(e, r),
            Outcome::Reads => r matches SystemResponse::Read { requests } && reads_asked(*request, requests@),
            Outcome::Done => r matches SystemResponse::Transaction { transaction } && transaction_proposed(*request, transaction),
        },
{
    match evaluate(request) {
        Ok(response) => response,
        Err(stop) => system_stop_response(stop),
    }
}

/// The create-conversation command's schema.
pub fn chat_create_conversation_command_schema_key() -> (r: Result<SchemaKey, ChatSchemaError>)
    ensures
        r matches Ok(k) && is_schema(k, CREATE_CONVERSATION_COMMAND@),
{
    Ok(chat_schema(CREATE_CONVERSATION_COMMAND))
}

/// The add-participant command's schema.
pub fn chat_add_participant_command_schema_key() -> (r: Result<SchemaKey, ChatSchemaError>)
    ensures
        r matches Ok(k) && is_schema(k, ADD_PARTICIPANT_COMMAND@),
{
    Ok(chat_schema(ADD_PARTICIPANT_COMMAND))
}

/// The send-message command's schema.
pub fn chat_send_message_command_schema_key() -> (r: Result<SchemaKey, ChatSchemaError>)
    ensures
        r matches Ok(k) && is_schema(k, crate::chat_view::SEND_MESSAGE_COMMAND@),
{
    Ok(chat_schema(crate::chat_view::SEND_MESSAGE_COMMAND))
}

/// The edit-message command's schema.
pub fn chat_edit_message_command_schema_key() -> (r: Result<SchemaKey, ChatSchemaError>)
    ensures
        r matches Ok(k) && is_schema(k, EDIT_MESSAGE_COMMAND@),
{
    Ok(chat_schema(EDIT_MESSAGE_COMMAND))
}

/// The select-branch command's schema.
pub fn chat_select_branch_command_schema_key() -> (r: Result<SchemaKey, ChatSchemaError>)
    ensures
        r matches Ok(k) && is_schema(k, SELECT_BRANCH_COMMAND@),
{
    Ok(chat_schema(SELECT_BRANCH_COMMAND))
}

/// The request-alternative command's schema.
pub fn chat_request_alternative_command_schema_key() -> (r: Result<SchemaKey, ChatSchemaError>)
    ensures
        r matches Ok(k) && is_schema(k, REQUEST_ALTERNATIVE_COMMAND@),
{
    Ok(chat_schema(REQUEST_ALTERNATIVE_COMMAND))
}

/// The conversation view's schema.
pub fn chat_conversation_projection_schema_key() -> (r: Result<SchemaKey, ChatSchemaError>)
    ensures
        r matches Ok(k) && is_schema(k, crate::chat_view::CONVERSATION_PROJECTION@),
{
    Ok(chat_schema(crate::chat_view::CONVERSATION_PROJECTION))
}

} // verus!
