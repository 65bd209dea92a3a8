use rtwkit::chat::{
    ChatWorldIndex, ContentBlock, ConversationState, CreateConversationCommand, EntityId, MessageState,
    ParticipantBinding, ParticipantIdentity, PrincipalId,
};
use rtwkit::chat_system::{
    chat_add_participant_command_schema_key, chat_create_conversation_command_schema_key,
    chat_edit_message_command_schema_key, chat_request_alternative_command_schema_key,
    chat_select_branch_command_schema_key, chat_send_message_command_schema_key,
    evaluate_chat_world_system, AddParticipantCommand, ChatEvent, CommandPayload, EditMessageCommand,
    EntityRecord, Mutation, ParticipantBindingRequest, RelationRecord, RequestAlternativeCommand,
    SelectBranchCommand, SendMessageCommand, SystemActor, SystemCommand, SystemReadRequest,
    SystemReadResult, SystemRequest, SystemResponse, Transaction, DIAGNOSTIC_INVALID_COMMAND,
    DIAGNOSTIC_MISSING_STATE, DIAGNOSTIC_TRANSPORT, DIAGNOSTIC_UNAUTHORIZED,
};
use rtwkit::chat_view::{chat_schema, FacetPayload, FacetTarget, SchemaKey};

const ADD_ID: [u8; 16] = [0x11; 16];
const SEND_ID: [u8; 16] = [0x22; 16];
const EDIT_ID: [u8; 16] = [0x33; 16];
const CREATE_ID: [u8; 16] = [0x44; 16];
const CONVERSATION: EntityId = EntityId(0xc0);
const PARTICIPANT: EntityId = EntityId(0xd0);

fn request(
    schema: SchemaKey,
    id: [u8; 16],
    payload: CommandPayload,
    principal: PrincipalId,
    actor: SystemActor,
) -> SystemRequest {
    SystemRequest {
        command: SystemCommand { schema, id, principal, actor, effective_at: None, payload },
        reads: Vec::new(),
    }
}

fn transaction(response: SystemResponse) -> Transaction {
    match response {
        SystemResponse::Transaction { transaction } => transaction,
        other => panic!("expected transaction response, got {other:?}"),
    }
}

fn reads(response: SystemResponse) -> Vec<SystemReadRequest> {
    match response {
        SystemResponse::Read { requests } => requests,
        other => panic!("expected read response, got {other:?}"),
    }
}

fn rejection(response: SystemResponse) -> String {
    match response {
        SystemResponse::Rejected { reason } => reason,
        other => panic!("expected a rejection, got {other:?}"),
    }
}

fn entity_result(id: EntityId, schema: &str) -> SystemReadResult {
    SystemReadResult::Entity { entity_id: id, value: Some(EntityRecord { schema: chat_schema(schema) }) }
}

fn facet_result(target: FacetTarget, schema: &str, value: Option<FacetPayload>) -> SystemReadResult {
    SystemReadResult::Facet { target, schema: chat_schema(schema), value }
}

fn relation_result(relation_id: [u8; 16], schema: &str, from: EntityId, to: EntityId) -> SystemReadResult {
    SystemReadResult::Relation {
        relation_id,
        value: Some(RelationRecord { schema: chat_schema(schema), from, to }),
    }
}

fn requested_relation_id(requests: &[SystemReadRequest]) -> [u8; 16] {
    requests
        .iter()
        .find_map(|request| match request {
            SystemReadRequest::Relation { relation_id } => Some(*relation_id),
            _ => None,
        })
        .expect("expected relation read")
}

fn created_entity(transaction: &Transaction, schema: &str) -> EntityId {
    transaction
        .mutations
        .iter()
        .find_map(|mutation| match mutation {
            Mutation::CreateEntity { entity_id, schema: s } if s.id == schema && s.version == 1 => Some(*entity_id),
            _ => None,
        })
        .expect("expected created entity")
}

fn facet_payload<'a>(transaction: &'a Transaction, target: FacetTarget, schema: &str) -> &'a FacetPayload {
    transaction
        .mutations
        .iter()
        .find_map(|mutation| match mutation {
            Mutation::SetFacet { target: t, schema: s, payload } if *t == target && s.id == schema && s.version == 1 => {
                Some(payload)
            }
            _ => None,
        })
        .expect("expected facet mutation")
}

fn empty_state(participants: Vec<EntityId>) -> FacetPayload {
    FacetPayload::Conversation(ConversationState {
        title: None,
        selected_leaf: None,
        participant_ids: participants,
        message_ids: Vec::new(),
    })
}

fn principal_identity(principal: PrincipalId) -> FacetPayload {
    FacetPayload::Participant(ParticipantIdentity {
        display_name: String::from("Mart"),
        binding: ParticipantBinding::Principal { principal_id: principal },
    })
}

fn send_command(text: &str) -> CommandPayload {
    CommandPayload::SendMessage(SendMessageCommand {
        conversation_id: CONVERSATION,
        participant_id: PARTICIPANT,
        parent_message_id: None,
        alternative_of: None,
        blocks: vec![ContentBlock::Text { text: String::from(text) }],
    })
}

fn send_reads_for(membership: [u8; 16], identity: FacetPayload) -> Vec<SystemReadResult> {
    vec![
        entity_result(CONVERSATION, "rintawa.chat.conversation"),
        entity_result(PARTICIPANT, "rintawa.chat.participant"),
        relation_result(membership, "rintawa.chat.conversation-participant", CONVERSATION, PARTICIPANT),
        facet_result(FacetTarget::Entity(PARTICIPANT), "rintawa.chat.participant-identity", Some(identity)),
        facet_result(
            FacetTarget::Entity(CONVERSATION),
            "rintawa.chat.conversation-state",
            Some(empty_state(vec![PARTICIPANT])),
        ),
    ]
}

#[test]
fn test_should_create_conversation_without_private_persistence() {
    let principal = PrincipalId(1);
    let mut request = request(
        chat_create_conversation_command_schema_key().unwrap(),
        CREATE_ID,
        CommandPayload::CreateConversation(CreateConversationCommand { title: Some(String::from("Branching test")) }),
        principal,
        SystemActor::Principal(principal),
    );
    let initial_reads = reads(evaluate_chat_world_system(&request));
    assert_eq!(initial_reads.len(), 1);
    request.reads = vec![facet_result(FacetTarget::World, "rintawa.chat.world-index", None)];
    let transaction = transaction(evaluate_chat_world_system(&request));
    let conversation_id = created_entity(&transaction, "rintawa.chat.conversation");
    match facet_payload(&transaction, FacetTarget::Entity(conversation_id), "rintawa.chat.conversation-state") {
        FacetPayload::Conversation(state) => {
            assert_eq!(state.title.as_deref(), Some("Branching test"));
            assert_eq!(state.selected_leaf, None);
        }
        other => panic!("expected a conversation state, got {other:?}"),
    }
    assert_eq!(transaction.events.len(), 1);
}

#[test]
fn test_should_authorize_participant_send_and_preserve_message_revisions() {
    let principal = PrincipalId(1);
    let actor = SystemActor::Principal(principal);

    let mut add_request = request(
        chat_add_participant_command_schema_key().unwrap(),
        ADD_ID,
        CommandPayload::AddParticipant(AddParticipantCommand {
            conversation_id: CONVERSATION,
            display_name: String::from("Mart"),
            binding: ParticipantBindingRequest::CurrentPrincipal,
        }),
        principal,
        actor,
    );
    let add_reads = reads(evaluate_chat_world_system(&add_request));
    assert_eq!(add_reads.len(), 2);
    add_request.reads = vec![
        entity_result(CONVERSATION, "rintawa.chat.conversation"),
        facet_result(FacetTarget::Entity(CONVERSATION), "rintawa.chat.conversation-state", Some(empty_state(vec![]))),
    ];
    let add_transaction = transaction(evaluate_chat_world_system(&add_request));
    let participant_id = created_entity(&add_transaction, "rintawa.chat.participant");
    let binding = match facet_payload(&add_transaction, FacetTarget::Entity(participant_id), "rintawa.chat.participant-identity") {
        FacetPayload::Participant(identity) => identity.binding,
        other => panic!("expected an identity, got {other:?}"),
    };
    assert_eq!(binding, ParticipantBinding::Principal { principal_id: principal });

    let participant_id_for_send = participant_id;
    let mut send_request = request(
        chat_send_message_command_schema_key().unwrap(),
        SEND_ID,
        CommandPayload::SendMessage(SendMessageCommand {
            conversation_id: CONVERSATION,
            participant_id: participant_id_for_send,
            parent_message_id: None,
            alternative_of: None,
            blocks: vec![ContentBlock::Text { text: String::from("Hello world") }],
        }),
        principal,
        actor,
    );
    let send_reads = reads(evaluate_chat_world_system(&send_request));
    assert_eq!(send_reads.len(), 5);
    let membership_id = requested_relation_id(&send_reads);
    send_request.reads = vec![
        entity_result(CONVERSATION, "rintawa.chat.conversation"),
        entity_result(participant_id, "rintawa.chat.participant"),
        relation_result(membership_id, "rintawa.chat.conversation-participant", CONVERSATION, participant_id),
        facet_result(
            FacetTarget::Entity(participant_id),
            "rintawa.chat.participant-identity",
            Some(principal_identity(principal)),
        ),
        facet_result(
            FacetTarget::Entity(CONVERSATION),
            "rintawa.chat.conversation-state",
            Some(empty_state(vec![participant_id])),
        ),
    ];
    let send_transaction = transaction(evaluate_chat_world_system(&send_request));
    let message_id = created_entity(&send_transaction, "rintawa.chat.message");
    let initial_revision = created_entity(&send_transaction, "rintawa.chat.message-revision");
    let message_state: MessageState =
        match facet_payload(&send_transaction, FacetTarget::Entity(message_id), "rintawa.chat.message-state") {
            FacetPayload::Message(state) => *state,
            other => panic!("expected a message state, got {other:?}"),
        };
    assert_eq!(message_state.current_revision, initial_revision);
    assert_eq!(message_state.author_participant_id, participant_id);
    match facet_payload(&send_transaction, FacetTarget::Entity(initial_revision), "rintawa.chat.message-content") {
        FacetPayload::Content(content) => assert!(matches!(
            &content.blocks[..],
            [ContentBlock::Text { text }] if text == "Hello world"
        )),
        other => panic!("expected content, got {other:?}"),
    }

    let mut edit_request = request(
        chat_edit_message_command_schema_key().unwrap(),
        EDIT_ID,
        CommandPayload::EditMessage(EditMessageCommand {
            message_id,
            blocks: vec![ContentBlock::Markdown { markdown: String::from("**edited**") }],
        }),
        principal,
        actor,
    );
    let first_edit_reads = reads(evaluate_chat_world_system(&edit_request));
    assert_eq!(first_edit_reads.len(), 2);
    edit_request.reads = vec![
        entity_result(message_id, "rintawa.chat.message"),
        facet_result(FacetTarget::Entity(message_id), "rintawa.chat.message-state", Some(FacetPayload::Message(message_state))),
    ];
    let second_edit_reads = reads(evaluate_chat_world_system(&edit_request));
    assert_eq!(second_edit_reads.len(), 3);
    let membership_id = requested_relation_id(&second_edit_reads);
    edit_request.reads.push(entity_result(participant_id, "rintawa.chat.participant"));
    edit_request.reads.push(relation_result(
        membership_id,
        "rintawa.chat.conversation-participant",
        CONVERSATION,
        participant_id,
    ));
    edit_request.reads.push(facet_result(
        FacetTarget::Entity(participant_id),
        "rintawa.chat.participant-identity",
        Some(principal_identity(principal)),
    ));
    let edit_transaction = transaction(evaluate_chat_world_system(&edit_request));
    let edited_revision = created_entity(&edit_transaction, "rintawa.chat.message-revision");
    assert_ne!(edited_revision, initial_revision);
    assert!(!edit_transaction.mutations.iter().any(|mutation| match mutation {
        Mutation::CreateEntity { entity_id, .. } => *entity_id == initial_revision,
        Mutation::SetFacet { target, .. } => *target == FacetTarget::Entity(initial_revision),
        Mutation::CreateRelation { .. } => false,
    }));
    match facet_payload(&edit_transaction, FacetTarget::Entity(message_id), "rintawa.chat.message-state") {
        FacetPayload::Message(state) => assert_eq!(state.current_revision, edited_revision),
        other => panic!("expected a message state, got {other:?}"),
    }
}

#[test]
fn test_should_reject_send_from_unrelated_principal() {
    let principal = PrincipalId(1);
    let other = PrincipalId(2);
    let mut request = request(
        chat_send_message_command_schema_key().unwrap(),
        SEND_ID,
        send_command("spoof"),
        principal,
        SystemActor::Principal(principal),
    );
    let requested = reads(evaluate_chat_world_system(&request));
    let membership_id = requested_relation_id(&requested);
    request.reads = send_reads_for(membership_id, principal_identity(other));
    assert_eq!(rejection(evaluate_chat_world_system(&request)), DIAGNOSTIC_UNAUTHORIZED);
}

#[test]
fn test_should_bound_message_content_before_proposing_state() {
    let principal = PrincipalId(1);
    let request = request(
        chat_send_message_command_schema_key().unwrap(),
        SEND_ID,
        send_command(&"x".repeat(64 * 1024 + 1)),
        principal,
        SystemActor::Principal(principal),
    );
    assert_eq!(rejection(evaluate_chat_world_system(&request)), DIAGNOSTIC_INVALID_COMMAND);
}

#[test]
fn test_system_rejects_unknown_schema_and_mismatched_payload() {
    let principal = PrincipalId(1);
    let unknown = request(
        chat_schema("rintawa.chat.unknown"),
        SEND_ID,
        send_command("hi"),
        principal,
        SystemActor::Principal(principal),
    );
    assert_eq!(rejection(evaluate_chat_world_system(&unknown)), DIAGNOSTIC_INVALID_COMMAND);
    let mismatched = request(
        chat_edit_message_command_schema_key().unwrap(),
        SEND_ID,
        send_command("hi"),
        principal,
        SystemActor::Principal(principal),
    );
    assert_eq!(rejection(evaluate_chat_world_system(&mismatched)), DIAGNOSTIC_INVALID_COMMAND);
}

#[test]
fn test_send_to_own_parent_as_alternative_is_invalid() {
    let principal = PrincipalId(1);
    let parent = EntityId(0xe0);
    let request = request(
        chat_send_message_command_schema_key().unwrap(),
        SEND_ID,
        CommandPayload::SendMessage(SendMessageCommand {
            conversation_id: CONVERSATION,
            participant_id: PARTICIPANT,
            parent_message_id: Some(parent),
            alternative_of: Some(parent),
            blocks: vec![ContentBlock::Text { text: String::from("hi") }],
        }),
        principal,
        SystemActor::Principal(principal),
    );
    assert_eq!(rejection(evaluate_chat_world_system(&request)), DIAGNOSTIC_INVALID_COMMAND);
}

#[test]
fn test_send_reads_references_and_appends_message() {
    let principal = PrincipalId(1);
    let parent = EntityId(0xe0);
    let mut request = request(
        chat_send_message_command_schema_key().unwrap(),
        SEND_ID,
        CommandPayload::SendMessage(SendMessageCommand {
            conversation_id: CONVERSATION,
            participant_id: PARTICIPANT,
            parent_message_id: Some(parent),
            alternative_of: None,
            blocks: vec![ContentBlock::Text { text: String::from("reply") }],
        }),
        principal,
        SystemActor::Principal(principal),
    );
    let requested = reads(evaluate_chat_world_system(&request));
    assert_eq!(requested.len(), 7);
    assert!(matches!(requested[5], SystemReadRequest::Entity { entity_id } if entity_id == parent));
    let membership_id = requested_relation_id(&requested);
    let mut reads_now = send_reads_for(membership_id, principal_identity(principal));
    reads_now.push(entity_result(parent, "rintawa.chat.message"));
    let parent_state = MessageState {
        conversation_id: CONVERSATION,
        author_participant_id: PARTICIPANT,
        parent_message_id: None,
        alternative_of: None,
        current_revision: EntityId(0xf0),
    };
    reads_now.push(facet_result(FacetTarget::Entity(parent), "rintawa.chat.message-state", Some(FacetPayload::Message(parent_state))));
    request.reads = reads_now;
    // The conversation state read lists no messages, so the parent is unknown
    // to it, but the parent's own state places it in the conversation.
    let transaction = transaction(evaluate_chat_world_system(&request));
    assert_eq!(transaction.mutations.len(), 9);
    let message_id = created_entity(&transaction, "rintawa.chat.message");
    match facet_payload(&transaction, FacetTarget::Entity(CONVERSATION), "rintawa.chat.conversation-state") {
        FacetPayload::Conversation(state) => {
            assert_eq!(state.message_ids, vec![message_id]);
            assert_eq!(state.selected_leaf, Some(message_id));
            assert_eq!(state.participant_ids, vec![PARTICIPANT]);
        }
        other => panic!("expected a conversation state, got {other:?}"),
    }
    match transaction.events[0].payload {
        ChatEvent::MessageAdded(event) => {
            assert_eq!(event.parent_message_id, Some(parent));
            assert_eq!(event.message_id, message_id);
        }
        other => panic!("expected a message-added event, got {other:?}"),
    }
    assert_eq!(transaction.events[0].schema.id, "rintawa.chat.message-added");
}

#[test]
fn test_send_with_parent_in_another_conversation_is_missing_state() {
    let principal = PrincipalId(1);
    let parent = EntityId(0xe0);
    let mut request = request(
        chat_send_message_command_schema_key().unwrap(),
        SEND_ID,
        CommandPayload::SendMessage(SendMessageCommand {
            conversation_id: CONVERSATION,
            participant_id: PARTICIPANT,
            parent_message_id: Some(parent),
            alternative_of: None,
            blocks: vec![ContentBlock::Text { text: String::from("reply") }],
        }),
        principal,
        SystemActor::Principal(principal),
    );
    let membership_id = requested_relation_id(&reads(evaluate_chat_world_system(&request)));
    let mut reads_now = send_reads_for(membership_id, principal_identity(principal));
    reads_now.push(entity_result(parent, "rintawa.chat.message"));
    let parent_state = MessageState {
        conversation_id: EntityId(0xc1),
        author_participant_id: PARTICIPANT,
        parent_message_id: None,
        alternative_of: None,
        current_revision: EntityId(0xf0),
    };
    reads_now.push(facet_result(FacetTarget::Entity(parent), "rintawa.chat.message-state", Some(FacetPayload::Message(parent_state))));
    request.reads = reads_now;
    assert_eq!(rejection(evaluate_chat_world_system(&request)), DIAGNOSTIC_MISSING_STATE);
}

#[test]
fn test_send_with_unanswered_entity_fails_transport() {
    let principal = PrincipalId(1);
    let mut request = request(
        chat_send_message_command_schema_key().unwrap(),
        SEND_ID,
        send_command("hi"),
        principal,
        SystemActor::Principal(principal),
    );
    request.reads = vec![entity_result(CONVERSATION, "rintawa.chat.conversation")];
    match evaluate_chat_world_system(&request) {
        SystemResponse::Failed { reason } => assert_eq!(reason, DIAGNOSTIC_TRANSPORT),
        other => panic!("expected a failure, got {other:?}"),
    }
}

#[test]
fn test_entity_bound_participant_needs_that_entity_as_actor() {
    let principal = PrincipalId(1);
    let character = EntityId(0xaa);
    let identity = FacetPayload::Participant(ParticipantIdentity {
        display_name: String::from("Alice"),
        binding: ParticipantBinding::Entity { entity_id: character },
    });
    let mut as_principal = request(
        chat_send_message_command_schema_key().unwrap(),
        SEND_ID,
        send_command("hi"),
        principal,
        SystemActor::Principal(principal),
    );
    let membership_id = requested_relation_id(&reads(evaluate_chat_world_system(&as_principal)));
    as_principal.reads = send_reads_for(membership_id, identity);
    assert_eq!(rejection(evaluate_chat_world_system(&as_principal)), DIAGNOSTIC_UNAUTHORIZED);

    let identity = FacetPayload::Participant(ParticipantIdentity {
        display_name: String::from("Alice"),
        binding: ParticipantBinding::Entity { entity_id: character },
    });
    let mut as_character = request(
        chat_send_message_command_schema_key().unwrap(),
        SEND_ID,
        send_command("hi"),
        principal,
        SystemActor::Entity(character),
    );
    as_character.reads = send_reads_for(membership_id, identity);
    let transaction = transaction(evaluate_chat_world_system(&as_character));
    assert_eq!(transaction.mutations.len(), 8);
}

#[test]
fn test_select_branch_sets_leaf_for_direct_principal() {
    let principal = PrincipalId(1);
    let message = EntityId(0xe0);
    let mut request = request(
        chat_select_branch_command_schema_key().unwrap(),
        SEND_ID,
        CommandPayload::SelectBranch(SelectBranchCommand { conversation_id: CONVERSATION, message_id: message }),
        principal,
        SystemActor::Principal(principal),
    );
    let requested = reads(evaluate_chat_world_system(&request));
    assert_eq!(requested.len(), 4);
    let link = requested_relation_id(&requested);
    request.reads = vec![
        entity_result(CONVERSATION, "rintawa.chat.conversation"),
        entity_result(message, "rintawa.chat.message"),
        relation_result(link, "rintawa.chat.conversation-message", CONVERSATION, message),
        facet_result(
            FacetTarget::Entity(CONVERSATION),
            "rintawa.chat.conversation-state",
            Some(FacetPayload::Conversation(ConversationState {
                title: None,
                selected_leaf: None,
                participant_ids: vec![],
                message_ids: vec![message],
            })),
        ),
    ];
    let transaction = transaction(evaluate_chat_world_system(&request));
    match facet_payload(&transaction, FacetTarget::Entity(CONVERSATION), "rintawa.chat.conversation-state") {
        FacetPayload::Conversation(state) => assert_eq!(state.selected_leaf, Some(message)),
        other => panic!("expected a conversation state, got {other:?}"),
    }
    let mut through_entity = request;
    through_entity.command.actor = SystemActor::Entity(EntityId(0xaa));
    assert_eq!(rejection(evaluate_chat_world_system(&through_entity)), DIAGNOSTIC_UNAUTHORIZED);
}

#[test]
fn test_request_alternative_only_proposes_event() {
    let principal = PrincipalId(1);
    let message = EntityId(0xe0);
    let mut request = request(
        chat_request_alternative_command_schema_key().unwrap(),
        SEND_ID,
        CommandPayload::RequestAlternative(RequestAlternativeCommand {
            conversation_id: CONVERSATION,
            message_id: message,
            participant_id: PARTICIPANT,
        }),
        principal,
        SystemActor::Principal(principal),
    );
    let requested = reads(evaluate_chat_world_system(&request));
    assert_eq!(requested.len(), 6);
    let relations: Vec<[u8; 16]> = requested
        .iter()
        .filter_map(|q| match q {
            SystemReadRequest::Relation { relation_id } => Some(*relation_id),
            _ => None,
        })
        .collect();
    request.reads = vec![
        entity_result(CONVERSATION, "rintawa.chat.conversation"),
        entity_result(message, "rintawa.chat.message"),
        entity_result(PARTICIPANT, "rintawa.chat.participant"),
        relation_result(relations[0], "rintawa.chat.conversation-message", CONVERSATION, message),
        relation_result(relations[1], "rintawa.chat.conversation-participant", CONVERSATION, PARTICIPANT),
        facet_result(
            FacetTarget::Entity(message),
            "rintawa.chat.message-state",
            Some(FacetPayload::Message(MessageState {
                conversation_id: CONVERSATION,
                author_participant_id: PARTICIPANT,
                parent_message_id: None,
                alternative_of: None,
                current_revision: EntityId(0xf0),
            })),
        ),
    ];
    let transaction = transaction(evaluate_chat_world_system(&request));
    assert!(transaction.mutations.is_empty());
    assert_eq!(transaction.events.len(), 1);
}

#[test]
fn test_create_conversation_rejects_full_index() {
    let principal = PrincipalId(1);
    let mut request = request(
        chat_create_conversation_command_schema_key().unwrap(),
        CREATE_ID,
        CommandPayload::CreateConversation(CreateConversationCommand { title: None }),
        principal,
        SystemActor::Principal(principal),
    );
    let full: Vec<EntityId> = (0..32).map(|k| EntityId(1000 + k)).collect();
    request.reads = vec![facet_result(
        FacetTarget::World,
        "rintawa.chat.world-index",
        Some(FacetPayload::WorldIndex(ChatWorldIndex { conversations: full })),
    )];
    assert_eq!(rejection(evaluate_chat_world_system(&request)), DIAGNOSTIC_INVALID_COMMAND);
}
