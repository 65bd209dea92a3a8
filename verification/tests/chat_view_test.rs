use rtwkit::chat::{
    ChatWorldIndex, ContentBlock, ConversationState, EntityId, MessageContent, MessageState,
    ParticipantBinding, ParticipantIdentity, PrincipalId,
};
use rtwkit::chat_view::{
    chat_schema, evaluate_chat_projection, ChatProjectionInput, FacetPayload, FacetTarget,
    ProjectionReadRequest, ProjectionReadResult, ProjectionRequest, ProjectionResponse, SchemaKey,
    CHAT_WORLD_INDEX_FACET, CONVERSATION_PROJECTION, CONVERSATION_STATE_FACET,
    DIAGNOSTIC_INVALID_INPUT, DIAGNOSTIC_MISSING_STATE, MESSAGE_CONTENT_FACET, MESSAGE_STATE_FACET,
    PARTICIPANT_IDENTITY_FACET, SEND_MESSAGE_COMMAND,
};

const VIEWER: PrincipalId = PrincipalId(7);
const OTHER: PrincipalId = PrincipalId(8);
const CONVERSATION: EntityId = EntityId(100);
const OLDER_CONVERSATION: EntityId = EntityId(99);
const ALICE: EntityId = EntityId(200);
const BOB: EntityId = EntityId(201);
const CAROL: EntityId = EntityId(202);
const CHARACTER: EntityId = EntityId(300);
const FIRST: EntityId = EntityId(400);
const REPLY: EntityId = EntityId(401);
const FIRST_REVISION: EntityId = EntityId(501);
const REPLY_REVISION: EntityId = EntityId(500);

fn request(input: Option<ChatProjectionInput>, reads: Vec<ProjectionReadResult>) -> ProjectionRequest {
    ProjectionRequest {
        projection_schema: chat_schema(CONVERSATION_PROJECTION),
        input,
        principal: VIEWER,
        reads,
    }
}

fn newest() -> Option<ChatProjectionInput> {
    Some(ChatProjectionInput { conversation_id: None })
}

fn facet(target: FacetTarget, schema: &str, value: Option<FacetPayload>) -> ProjectionReadResult {
    ProjectionReadResult::Facet { target, schema: chat_schema(schema), value }
}

fn index(conversations: Vec<EntityId>) -> ProjectionReadResult {
    facet(
        FacetTarget::World,
        CHAT_WORLD_INDEX_FACET,
        Some(FacetPayload::WorldIndex(ChatWorldIndex { conversations })),
    )
}

fn conversation(id: EntityId, participants: Vec<EntityId>, messages: Vec<EntityId>) -> ProjectionReadResult {
    facet(
        FacetTarget::Entity(id),
        CONVERSATION_STATE_FACET,
        Some(FacetPayload::Conversation(ConversationState {
            title: Some(String::from("Station")),
            selected_leaf: messages.last().copied(),
            participant_ids: participants,
            message_ids: messages,
        })),
    )
}

fn participant(id: EntityId, name: &str, binding: ParticipantBinding) -> ProjectionReadResult {
    facet(
        FacetTarget::Entity(id),
        PARTICIPANT_IDENTITY_FACET,
        Some(FacetPayload::Participant(ParticipantIdentity {
            display_name: String::from(name),
            binding,
        })),
    )
}

fn message(
    id: EntityId,
    author: EntityId,
    parent: Option<EntityId>,
    alternative_of: Option<EntityId>,
    revision: EntityId,
) -> ProjectionReadResult {
    facet(
        FacetTarget::Entity(id),
        MESSAGE_STATE_FACET,
        Some(FacetPayload::Message(MessageState {
            conversation_id: CONVERSATION,
            author_participant_id: author,
            parent_message_id: parent,
            alternative_of,
            current_revision: revision,
        })),
    )
}

fn content(revision: EntityId, text: &str) -> ProjectionReadResult {
    facet(
        FacetTarget::Entity(revision),
        MESSAGE_CONTENT_FACET,
        Some(FacetPayload::Content(MessageContent {
            blocks: vec![ContentBlock::Text { text: String::from(text) }],
            effective_at: Some(1_700_000_000_000),
        })),
    )
}

fn control(actor: EntityId, allowed: bool) -> ProjectionReadResult {
    ProjectionReadResult::CanControl {
        actor_entity: actor,
        command_schema: chat_schema(SEND_MESSAGE_COMMAND),
        allowed,
    }
}

fn requested_facets(response: &ProjectionResponse) -> Vec<(FacetTarget, String)> {
    match response {
        ProjectionResponse::Read { requests } => requests
            .iter()
            .filter_map(|request| match request {
                ProjectionReadRequest::Facet { target, schema } => Some((*target, schema.id.clone())),
                ProjectionReadRequest::CanControl { .. } => None,
            })
            .collect(),
        other => panic!("expected reads, got {other:?}"),
    }
}

fn requested_controls(response: &ProjectionResponse) -> Vec<EntityId> {
    match response {
        ProjectionResponse::Read { requests } => requests
            .iter()
            .filter_map(|request| match request {
                ProjectionReadRequest::CanControl { actor_entity, command_schema } => {
                    assert_eq!(command_schema.id, SEND_MESSAGE_COMMAND);
                    assert_eq!(command_schema.version, 1);
                    Some(*actor_entity)
                }
                ProjectionReadRequest::Facet { .. } => None,
            })
            .collect(),
        other => panic!("expected reads, got {other:?}"),
    }
}

fn rejection(response: &ProjectionResponse) -> &str {
    match response {
        ProjectionResponse::Rejected { reason } => reason.as_str(),
        other => panic!("expected a rejection, got {other:?}"),
    }
}

fn full_reads() -> Vec<ProjectionReadResult> {
    vec![
        index(vec![OLDER_CONVERSATION, CONVERSATION]),
        conversation(OLDER_CONVERSATION, vec![], vec![]),
        conversation(CONVERSATION, vec![ALICE, BOB, CAROL], vec![FIRST, REPLY]),
        participant(ALICE, "Alice", ParticipantBinding::Principal { principal_id: VIEWER }),
        participant(BOB, "Bob", ParticipantBinding::Entity { entity_id: CHARACTER }),
        participant(CAROL, "Carol", ParticipantBinding::Principal { principal_id: OTHER }),
        message(FIRST, ALICE, None, None, FIRST_REVISION),
        message(REPLY, BOB, Some(FIRST), None, REPLY_REVISION),
    ]
}

#[test]
fn test_projection_rejects_another_schema() {
    let mut req = request(newest(), vec![]);
    req.projection_schema = SchemaKey { id: String::from("rintawa.chat.other"), version: 1 };
    assert_eq!(rejection(&evaluate_chat_projection(&req)), DIAGNOSTIC_INVALID_INPUT);
    let mut req = request(newest(), vec![]);
    req.projection_schema.version = 2;
    assert_eq!(rejection(&evaluate_chat_projection(&req)), DIAGNOSTIC_INVALID_INPUT);
}

#[test]
fn test_projection_rejects_undecoded_input() {
    let req = request(None, vec![]);
    assert_eq!(rejection(&evaluate_chat_projection(&req)), DIAGNOSTIC_INVALID_INPUT);
}

#[test]
fn test_projection_first_asks_for_world_index() {
    let response = evaluate_chat_projection(&request(newest(), vec![]));
    assert_eq!(
        requested_facets(&response),
        vec![(FacetTarget::World, String::from(CHAT_WORLD_INDEX_FACET))]
    );
}

#[test]
fn test_projection_without_index_completes_empty() {
    let reads = vec![facet(FacetTarget::World, CHAT_WORLD_INDEX_FACET, None)];
    match evaluate_chat_projection(&request(newest(), reads)) {
        ProjectionResponse::Complete { view } => {
            assert!(view.conversations.is_empty());
            assert_eq!(view.selected_conversation_id, None);
            assert_eq!(view.selected_leaf, None);
            assert!(view.participants.is_empty());
            assert!(view.messages.is_empty());
        }
        other => panic!("expected a view, got {other:?}"),
    }
}

#[test]
fn test_projection_asks_for_each_unread_conversation_state() {
    let reads = vec![index(vec![OLDER_CONVERSATION, CONVERSATION]), conversation(OLDER_CONVERSATION, vec![], vec![])];
    let response = evaluate_chat_projection(&request(newest(), reads));
    assert_eq!(
        requested_facets(&response),
        vec![(FacetTarget::Entity(CONVERSATION), String::from(CONVERSATION_STATE_FACET))]
    );
}

#[test]
fn test_projection_rejects_unindexed_conversation() {
    let reads = vec![index(vec![CONVERSATION])];
    let input = Some(ChatProjectionInput { conversation_id: Some(OLDER_CONVERSATION) });
    assert_eq!(rejection(&evaluate_chat_projection(&request(input, reads))), DIAGNOSTIC_MISSING_STATE);
}

#[test]
fn test_projection_rejects_index_with_repeated_conversation() {
    let reads = vec![index(vec![CONVERSATION, CONVERSATION])];
    assert_eq!(rejection(&evaluate_chat_projection(&request(newest(), reads))), DIAGNOSTIC_MISSING_STATE);
}

#[test]
fn test_projection_rejects_wrong_payload_for_index() {
    let reads = vec![facet(
        FacetTarget::World,
        CHAT_WORLD_INDEX_FACET,
        Some(FacetPayload::Undecodable),
    )];
    assert_eq!(rejection(&evaluate_chat_projection(&request(newest(), reads))), DIAGNOSTIC_MISSING_STATE);
}

#[test]
fn test_projection_asks_for_participants_and_messages() {
    let reads = vec![
        index(vec![CONVERSATION]),
        conversation(CONVERSATION, vec![ALICE, BOB], vec![FIRST]),
        participant(ALICE, "Alice", ParticipantBinding::Principal { principal_id: VIEWER }),
    ];
    let response = evaluate_chat_projection(&request(newest(), reads));
    assert_eq!(
        requested_facets(&response),
        vec![
            (FacetTarget::Entity(BOB), String::from(PARTICIPANT_IDENTITY_FACET)),
            (FacetTarget::Entity(FIRST), String::from(MESSAGE_STATE_FACET)),
        ]
    );
}

#[test]
fn test_projection_asks_for_controls_and_sorted_contents() {
    let response = evaluate_chat_projection(&request(newest(), full_reads()));
    assert_eq!(requested_controls(&response), vec![CHARACTER]);
    assert_eq!(
        requested_facets(&response),
        vec![
            (FacetTarget::Entity(REPLY_REVISION), String::from(MESSAGE_CONTENT_FACET)),
            (FacetTarget::Entity(FIRST_REVISION), String::from(MESSAGE_CONTENT_FACET)),
        ]
    );
}

#[test]
fn test_projection_completes_principal_filtered_view() {
    let mut reads = full_reads();
    reads.push(control(CHARACTER, true));
    reads.push(content(FIRST_REVISION, "Hello."));
    reads.push(content(REPLY_REVISION, "Good evening."));
    match evaluate_chat_projection(&request(newest(), reads)) {
        ProjectionResponse::Complete { view } => {
            let ids: Vec<EntityId> = view.conversations.iter().map(|c| c.id).collect();
            assert_eq!(ids, vec![OLDER_CONVERSATION, CONVERSATION]);
            assert_eq!(view.conversations[1].title.as_deref(), Some("Station"));
            assert_eq!(view.selected_conversation_id, Some(CONVERSATION));
            assert_eq!(view.selected_leaf, Some(REPLY));
            let shown: Vec<(EntityId, &str, Option<EntityId>, bool)> = view
                .participants
                .iter()
                .map(|p| (p.id, p.display_name.as_str(), p.linked_entity, p.can_send))
                .collect();
            assert_eq!(
                shown,
                vec![
                    (ALICE, "Alice", None, true),
                    (BOB, "Bob", Some(CHARACTER), true),
                    (CAROL, "Carol", None, false),
                ]
            );
            assert_eq!(view.messages.len(), 2);
            assert_eq!(view.messages[1].id, REPLY);
            assert_eq!(view.messages[1].author_participant_id, BOB);
            assert_eq!(view.messages[1].parent_message_id, Some(FIRST));
            assert_eq!(view.messages[1].revision_id, REPLY_REVISION);
            assert_eq!(view.messages[1].effective_at, Some(1_700_000_000_000));
            assert!(matches!(
                &view.messages[1].blocks[..],
                [ContentBlock::Text { text }] if text == "Good evening."
            ));
        }
        other => panic!("expected a view, got {other:?}"),
    }
}

#[test]
fn test_projection_denied_control_cannot_send() {
    let mut reads = full_reads();
    reads.push(control(CHARACTER, false));
    reads.push(control(CHARACTER, true));
    reads.push(content(FIRST_REVISION, "Hello."));
    reads.push(content(REPLY_REVISION, "Good evening."));
    match evaluate_chat_projection(&request(newest(), reads)) {
        ProjectionResponse::Complete { view } => {
            assert_eq!(view.participants[1].linked_entity, Some(CHARACTER));
            assert!(!view.participants[1].can_send);
        }
        other => panic!("expected a view, got {other:?}"),
    }
}

#[test]
fn test_projection_selects_named_conversation() {
    let mut reads = full_reads();
    reads.push(control(CHARACTER, true));
    let input = Some(ChatProjectionInput { conversation_id: Some(OLDER_CONVERSATION) });
    match evaluate_chat_projection(&request(input, reads)) {
        ProjectionResponse::Complete { view } => {
            assert_eq!(view.selected_conversation_id, Some(OLDER_CONVERSATION));
            assert!(view.participants.is_empty());
            assert!(view.messages.is_empty());
            assert_eq!(view.selected_leaf, None);
        }
        other => panic!("expected a view, got {other:?}"),
    }
}

#[test]
fn test_projection_rejects_alternative_by_another_author() {
    let reads = vec![
        index(vec![CONVERSATION]),
        conversation(CONVERSATION, vec![ALICE, BOB], vec![FIRST, REPLY]),
        participant(ALICE, "Alice", ParticipantBinding::Principal { principal_id: VIEWER }),
        participant(BOB, "Bob", ParticipantBinding::Uncontrolled),
        message(FIRST, ALICE, None, None, FIRST_REVISION),
        message(REPLY, BOB, None, Some(FIRST), REPLY_REVISION),
    ];
    assert_eq!(rejection(&evaluate_chat_projection(&request(newest(), reads))), DIAGNOSTIC_MISSING_STATE);
}

#[test]
fn test_projection_rejects_self_reference_and_foreign_author() {
    let reads = vec![
        index(vec![CONVERSATION]),
        conversation(CONVERSATION, vec![ALICE], vec![FIRST]),
        participant(ALICE, "Alice", ParticipantBinding::Principal { principal_id: VIEWER }),
        message(FIRST, ALICE, Some(FIRST), None, FIRST_REVISION),
    ];
    assert_eq!(rejection(&evaluate_chat_projection(&request(newest(), reads))), DIAGNOSTIC_MISSING_STATE);
    let reads = vec![
        index(vec![CONVERSATION]),
        conversation(CONVERSATION, vec![ALICE], vec![FIRST]),
        participant(ALICE, "Alice", ParticipantBinding::Principal { principal_id: VIEWER }),
        message(FIRST, BOB, None, None, FIRST_REVISION),
    ];
    assert_eq!(rejection(&evaluate_chat_projection(&request(newest(), reads))), DIAGNOSTIC_MISSING_STATE);
}

#[test]
fn test_projection_rejects_invalid_content() {
    let mut reads = full_reads();
    reads.push(control(CHARACTER, true));
    reads.push(content(FIRST_REVISION, "Hello."));
    reads.push(content(REPLY_REVISION, "   "));
    assert_eq!(rejection(&evaluate_chat_projection(&request(newest(), reads))), DIAGNOSTIC_MISSING_STATE);
}

#[test]
fn test_projection_rejects_participant_read_as_another_payload() {
    let reads = vec![
        index(vec![CONVERSATION]),
        conversation(CONVERSATION, vec![ALICE], vec![]),
        facet(FacetTarget::Entity(ALICE), PARTICIPANT_IDENTITY_FACET, None),
    ];
    assert_eq!(rejection(&evaluate_chat_projection(&request(newest(), reads))), DIAGNOSTIC_MISSING_STATE);
}

#[test]
fn test_projection_asks_controls_before_checking_contents() {
    let mut reads = full_reads();
    reads.push(content(FIRST_REVISION, "Hello."));
    reads.push(content(REPLY_REVISION, "   "));
    let response = evaluate_chat_projection(&request(newest(), reads));
    assert_eq!(requested_controls(&response), vec![CHARACTER]);
}
