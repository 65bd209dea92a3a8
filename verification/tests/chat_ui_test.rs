use rtwkit::chat::{ContentBlock, EntityId};
use rtwkit::chat_ui::{
    bounded_text, build_chat_snapshot, chat_surface_contribution, conversation_select_node_id,
    message_select_branch_node_id, ChatButtonAppearance, ChatNode, ChatNodeKind, CHAT_ACTION_SELECT_BRANCH,
    CHAT_ACTION_SELECT_CONVERSATION, MAX_PRESENTATION_TEXT_BYTES,
};
use rtwkit::chat_view::{ChatConversationSummary, ChatConversationView, ChatMessageView, ChatParticipantView};

fn node<'a>(nodes: &'a [ChatNode], id: &str) -> &'a ChatNode {
    nodes.iter().find(|n| n.id == id).unwrap_or_else(|| panic!("no node {id}"))
}

fn view(can_send: bool) -> ChatConversationView {
    ChatConversationView {
        conversations: vec![
            ChatConversationSummary { id: EntityId(1), title: Some(String::from("Station")) },
            ChatConversationSummary { id: EntityId(2), title: Some(String::from("   ")) },
        ],
        selected_conversation_id: Some(EntityId(1)),
        selected_leaf: Some(EntityId(11)),
        participants: vec![ChatParticipantView {
            id: EntityId(5),
            display_name: String::from("Alice"),
            linked_entity: None,
            can_send,
        }],
        messages: vec![
            ChatMessageView {
                id: EntityId(10),
                author_participant_id: EntityId(5),
                parent_message_id: None,
                alternative_of: None,
                revision_id: EntityId(20),
                blocks: vec![ContentBlock::Text { text: String::from("Hello") }],
                effective_at: None,
            },
            ChatMessageView {
                id: EntityId(11),
                author_participant_id: EntityId(6),
                parent_message_id: Some(EntityId(10)),
                alternative_of: None,
                revision_id: EntityId(21),
                blocks: vec![ContentBlock::Markdown { markdown: String::from("**hi**") }],
                effective_at: None,
            },
        ],
    }
}

#[test]
fn test_chat_node_ids_are_numbered() {
    assert_eq!(conversation_select_node_id(3), "navigation.conversation.3.select");
    assert_eq!(message_select_branch_node_id(12), "message.12.select-branch");
}

#[test]
fn test_bounded_text_keeps_short_and_cuts_long_text() {
    assert_eq!(bounded_text("short"), "short");
    let exact = "x".repeat(MAX_PRESENTATION_TEXT_BYTES);
    assert_eq!(bounded_text(&exact), exact);
    let long = "é".repeat(MAX_PRESENTATION_TEXT_BYTES);
    let cut = bounded_text(&long);
    assert!(cut.len() <= MAX_PRESENTATION_TEXT_BYTES);
    assert!(cut.ends_with('\u{2026}'));
    assert_eq!(cut.chars().count(), (MAX_PRESENTATION_TEXT_BYTES - 3) / 2 + 1);
}

#[test]
fn test_surface_contribution_declares_capabilities() {
    let c = chat_surface_contribution();
    assert_eq!(c.surface_id, "rintawa.chat.main");
    assert!(c.primary);
    assert_eq!(c.capabilities.len(), 7);
}

#[test]
fn test_snapshot_without_world_shows_empty_state() {
    let s = build_chat_snapshot(4, None, None, None);
    assert_eq!(s.root, "root");
    assert_eq!(s.revision, 4);
    assert!(matches!(&node(&s.nodes, "status").kind, ChatNodeKind::Text { text } if text == "Ready"));
    assert!(matches!(&node(&s.nodes, "header.world").kind, ChatNodeKind::Text { text } if text == "No active World"));
    assert!(matches!(
        &node(&s.nodes, "conversation.empty").kind,
        ChatNodeKind::Text { text } if text == "Open a World to load persistent Chat state."
    ));
    assert!(s.nodes.iter().all(|n| n.id != "conversation.create"));
    assert!(matches!(&node(&s.nodes, "navigation.empty").kind, ChatNodeKind::Text { text } if text == "No conversations"));
}

#[test]
fn test_snapshot_shows_selection_composer_and_branches() {
    let v = view(true);
    let s = build_chat_snapshot(1, Some("w1"), Some(&v), Some("Loaded"));
    assert!(matches!(&node(&s.nodes, "header.world").kind, ChatNodeKind::Text { text } if text == "World w1"));
    assert!(matches!(&node(&s.nodes, "status").kind, ChatNodeKind::Text { text } if text == "Loaded"));
    match &node(&s.nodes, "navigation.conversation.0.select").kind {
        ChatNodeKind::Button { label, action, enabled, appearance } => {
            assert_eq!(label, "Station");
            assert_eq!(action, CHAT_ACTION_SELECT_CONVERSATION);
            assert!(!enabled);
            assert_eq!(*appearance, ChatButtonAppearance::Subtle);
        }
        other => panic!("expected a button, got {other:?}"),
    }
    match &node(&s.nodes, "navigation.conversation.1.select").kind {
        ChatNodeKind::Button { label, enabled, .. } => {
            assert_eq!(label, "Conversation 2");
            assert!(*enabled);
        }
        other => panic!("expected a button, got {other:?}"),
    }
    assert!(matches!(&node(&s.nodes, "conversation.create").kind, ChatNodeKind::Button { enabled: true, .. }));
    assert!(matches!(&node(&s.nodes, "composer").kind, ChatNodeKind::TextArea { enabled: true, .. }));
    match &node(&s.nodes, "message.1.select-branch").kind {
        ChatNodeKind::Button { label, action, enabled, .. } => {
            assert_eq!(label, "Selected branch");
            assert_eq!(action, CHAT_ACTION_SELECT_BRANCH);
            assert!(!enabled);
        }
        other => panic!("expected a button, got {other:?}"),
    }
    assert!(matches!(&node(&s.nodes, "message.0.select-branch").kind, ChatNodeKind::Button { enabled: true, .. }));
    assert!(matches!(&node(&s.nodes, "message.0.author").kind, ChatNodeKind::Text { text } if text == "Alice"));
    assert!(matches!(&node(&s.nodes, "message.1.author").kind, ChatNodeKind::Text { text } if text == "Unknown participant"));
    assert!(matches!(&node(&s.nodes, "message.1.block.0").kind, ChatNodeKind::Markdown { source } if source == "**hi**"));
    assert!(matches!(&node(&s.nodes, "participant.0").kind, ChatNodeKind::Text { text } if text == "Alice \u{b7} you can send"));
    for n in &s.nodes {
        let children = match &n.kind {
            ChatNodeKind::Column { children } | ChatNodeKind::Row { children } | ChatNodeKind::List { children } => children,
            _ => continue,
        };
        for child in children {
            assert!(s.nodes.iter().any(|m| &m.id == child), "missing child {child}");
        }
    }
}

#[test]
fn test_composer_disabled_when_nobody_can_send() {
    let v = view(false);
    let s = build_chat_snapshot(1, Some("w1"), Some(&v), None);
    assert!(matches!(&node(&s.nodes, "composer").kind, ChatNodeKind::TextArea { enabled: false, .. }));
}
