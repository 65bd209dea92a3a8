use rtwkit::chat::{
    command_entity_id, derived_entity_id, relation_id, validate_participant_name,
    validate_title, validate_unique_ids, ChatModelError, ChatWorldIndex, ContentBlock, EntityId,
    IndexValidationError, MessageContent, TextField, MAX_CHAT_CONVERSATIONS, MAX_CHAT_TITLE_BYTES,
    MAX_MESSAGE_BLOCKS, MAX_MESSAGE_BLOCK_TEXT_BYTES,
};

const COMMAND: [u8; 16] = [1, 2, 3, 4, 5, 6, 7, 8, 9, 10, 11, 12, 13, 14, 15, 16];

#[test]
fn test_should_derive_stable_distinct_chat_ids() {
    let command = COMMAND;
    let entity = command_entity_id(command);
    assert_eq!(entity.0.to_be_bytes(), command);

    let revision = derived_entity_id(command, "revision");
    assert_ne!(revision, entity);
    assert_eq!(revision, derived_entity_id(command, "revision"));
    assert_ne!(
        relation_id("message-author", &vec![entity, revision]),
        relation_id("message-parent", &vec![entity, revision])
    );
}

#[test]
fn derived_entity_matches_known_uuid() {
    let revision = derived_entity_id(COMMAND, "revision");
    assert_eq!(
        revision.0.to_be_bytes(),
        [85, 143, 241, 205, 245, 87, 88, 174, 176, 18, 156, 129, 81, 103, 244, 169]
    );
    assert_eq!(revision.0 >> 76 & 0xf, 5);
}

#[test]
fn relation_matches_known_uuid() {
    let entity = command_entity_id(COMMAND);
    let revision = derived_entity_id(COMMAND, "revision");
    assert_eq!(
        relation_id("message-author", &vec![entity, revision]),
        [203, 232, 32, 93, 96, 156, 90, 104, 165, 110, 168, 149, 153, 244, 182, 71]
    );
}

#[test]
fn titles_and_names_are_bounded() {
    assert!(validate_title(&None).is_ok());
    assert!(validate_title(&Some("Branching test".to_string())).is_ok());
    assert_eq!(
        validate_title(&Some("x".repeat(MAX_CHAT_TITLE_BYTES + 1))),
        Err(ChatModelError::InvalidText {
            field: TextField::Title,
            maximum: MAX_CHAT_TITLE_BYTES
        })
    );
    assert!(validate_participant_name("Mart").is_ok());
    assert!(matches!(
        validate_participant_name("   "),
        Err(ChatModelError::InvalidText {
            field: TextField::DisplayName,
            ..
        })
    ));
    assert_eq!(TextField::DisplayName.name(), "display-name");
}

#[test]
fn unique_id_indexes() {
    assert_eq!(validate_unique_ids(&vec![EntityId(1), EntityId(2)], 2), Ok(()));
    assert_eq!(
        validate_unique_ids(&vec![EntityId(1), EntityId(1)], 2),
        Err(IndexValidationError::Duplicate)
    );
    assert_eq!(
        validate_unique_ids(&vec![EntityId(1), EntityId(2), EntityId(3)], 2),
        Err(IndexValidationError::TooLarge)
    );
    let index = ChatWorldIndex {
        conversations: (0..(MAX_CHAT_CONVERSATIONS as u128 + 1)).map(EntityId).collect(),
    };
    assert_eq!(index.validate(), Err(ChatModelError::TooManyConversations));
}

#[test]
fn message_content_budget() {
    let ok = MessageContent {
        blocks: vec![ContentBlock::Text {
            text: "Hello world".to_string(),
        }],
        effective_at: None,
    };
    assert!(ok.validate().is_ok());

    let empty = MessageContent {
        blocks: Vec::new(),
        effective_at: None,
    };
    assert_eq!(empty.validate(), Err(ChatModelError::TooManyBlocks));

    let too_many = MessageContent {
        blocks: (0..=MAX_MESSAGE_BLOCKS)
            .map(|_| ContentBlock::Markdown {
                markdown: "**edited**".to_string(),
            })
            .collect(),
        effective_at: None,
    };
    assert_eq!(too_many.validate(), Err(ChatModelError::TooManyBlocks));

    let over_budget = MessageContent {
        blocks: (0..5)
            .map(|_| ContentBlock::Text {
                text: "x".repeat(MAX_MESSAGE_BLOCK_TEXT_BYTES),
            })
            .collect(),
        effective_at: None,
    };
    assert_eq!(
        over_budget.validate(),
        Err(ChatModelError::MessageTextTooLarge)
    );
}
