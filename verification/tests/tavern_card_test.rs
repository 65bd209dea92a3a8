use rtwkit::tavern::CardError;
use rtwkit::tavern_card::{
    bounded_card, export_tavern_v2_json, import_tavern_v2, import_tavern_v2_json, JsonValue, TavernV2Error,
};
use serde_json::Value;

const FULL_CARD: &str = r#"{
  "spec": "chara_card_v2",
  "spec_version": "2.0",
  "vendor_top": { "keep": true },
  "data": {
    "name": "Alice",
    "description": "Portable description",
    "personality": "Curious",
    "scenario": "A train platform",
    "first_mes": "Hello from the platform.",
    "mes_example": "<START>\nAlice: Example",
    "creator_notes": "Creator note",
    "system_prompt": "Stay in character.",
    "post_history_instructions": "Prefer concise replies.",
    "alternate_greetings": ["Hi.", "Good evening."],
    "tags": ["test", "traveler"],
    "creator": "tester",
    "character_version": "7",
    "character_book": {
      "name": "Alice lore",
      "entries": [{"keys": ["platform"], "content": "A place."}]
    },
    "extensions": {
      "vendor/example": { "voice": "sample" },
      "unknown_scalar": 42
    },
    "future_field": { "must": "survive" }
  }
}"#;

fn source() -> Vec<u8> {
    let value: Value = serde_json::from_str(FULL_CARD).unwrap();
    serde_json::to_vec(&value).unwrap()
}

#[test]
fn test_should_normalize_tavern_v2_and_preserve_compatibility_fields() {
    let mut template = import_tavern_v2(&source()).unwrap();

    assert_eq!(template.name, "Alice");
    assert_eq!(template.description, "Portable description");
    assert_eq!(template.personality, "Curious");
    assert_eq!(template.narration.scenario, "A train platform");
    assert_eq!(template.narration.system_prompt, "Stay in character.");
    assert_eq!(template.session.greeting, "Hello from the platform.");
    assert_eq!(template.session.alternate_greetings, ["Hi.", "Good evening."]);
    assert!(template.narration.character_book.is_some());

    template.name = String::from("Alice edited");
    template.session.greeting = String::from("Edited greeting");
    let exported: Value = serde_json::from_slice(&export_tavern_v2_json(&template).unwrap()).unwrap();
    assert_eq!(exported["data"]["name"], "Alice edited");
    assert_eq!(exported["data"]["first_mes"], "Edited greeting");
    assert_eq!(exported["vendor_top"]["keep"], true);
    assert_eq!(exported["data"]["future_field"]["must"], "survive");
    assert_eq!(exported["data"]["extensions"]["unknown_scalar"], 42);
    assert_eq!(exported["data"]["extensions"]["vendor/example"]["voice"], "sample");
    assert_eq!(exported["data"]["character_book"]["name"], "Alice lore");
}

#[test]
fn export_then_import_gives_the_same_fields() {
    let template = import_tavern_v2(&source()).unwrap();
    let again = import_tavern_v2_json(&export_tavern_v2_json(&template).unwrap()).unwrap();
    assert_eq!(again.name, template.name);
    assert_eq!(again.metadata.tags, template.metadata.tags);
    assert_eq!(again.narration.message_examples, "<START>\nAlice: Example");
    assert_eq!(again.metadata.creator, "tester");
    assert_eq!(again.metadata.character_version, "7");
    let kept = again.compatibility.tavern_v2.unwrap();
    assert_eq!(kept.spec_version, "2.0");
    assert_eq!(kept.top_level_unknown.len(), 1);
    assert_eq!(kept.data_unknown.len(), 1);
    assert_eq!(kept.extensions.len(), 2);
}

#[test]
fn export_without_a_book_leaves_none() {
    let mut template = import_tavern_v2(&source()).unwrap();
    template.narration.character_book = None;
    let exported: Value = serde_json::from_slice(&export_tavern_v2_json(&template).unwrap()).unwrap();
    assert!(exported["data"].get("character_book").is_none());
    assert_eq!(exported["spec"], "chara_card_v2");
    assert_eq!(exported["data"]["tags"][1], "traveler");
}

#[test]
fn export_refuses_an_invalid_template() {
    let mut template = import_tavern_v2(&source()).unwrap();
    template.name = String::from("   ");
    assert!(matches!(export_tavern_v2_json(&template), Err(TavernV2Error::InvalidTemplate(_))));
}

#[test]
fn oversized_cards_are_refused() {
    assert!(matches!(
        bounded_card(vec![b' '; 4 * 1024 * 1024 + 1]),
        Err(TavernV2Error::Card(CardError::InputTooLarge))
    ));
    assert_eq!(bounded_card(vec![1, 2, 3]).unwrap(), vec![1, 2, 3]);
}

#[test]
fn unreadable_json_is_named() {
    assert!(matches!(import_tavern_v2_json(b"{nope"), Err(TavernV2Error::InvalidJson(_))));
    assert!(matches!(
        import_tavern_v2_json(br#"{"spec":"other","spec_version":"2.0","data":{}}"#),
        Err(TavernV2Error::UnsupportedSpec(s)) if s == "other"
    ));
    let imported = import_tavern_v2_json(&source()).unwrap();
    assert!(matches!(imported.narration.character_book, Some(JsonValue::Object(_))));
}
