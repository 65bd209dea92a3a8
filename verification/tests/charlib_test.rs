use rtwkit::charlib::{
    plan_character_identity, validate_record, validate_template, ArtifactDigest,
    CharacterContentRecord, CharacterInstantiateCommand, CharacterInstantiationError,
    CharacterLibraryError, CharacterLibraryGatewayError, CharacterTemplateError,
    CharacterWorldMaterializationError, CHARACTER_TEMPLATE_CONTENT_V1,
};

const REVISION: &str = "sha256:0123456789abcdef0123456789abcdef0123456789abcdef0123456789abcdef";

fn record(id: &str, content: &str, revision: &str) -> CharacterContentRecord {
    CharacterContentRecord {
        id: id.to_string(),
        content: content.to_string(),
        revision: revision.to_string(),
    }
}

#[test]
fn digests_must_be_canonical() {
    assert_eq!(ArtifactDigest::parse(REVISION).unwrap().as_str(), REVISION);
    assert!(ArtifactDigest::parse(&REVISION.to_uppercase()).is_none());
    assert!(ArtifactDigest::parse("sha256:0123").is_none());
    assert!(ArtifactDigest::parse(&REVISION.replace("sha256:", "sha512:")).is_none());
}

#[test]
fn records_are_checked_in_order() {
    assert_eq!(
        validate_record(&record("library-id", CHARACTER_TEMPLATE_CONTENT_V1, REVISION))
            .unwrap()
            .as_str(),
        REVISION
    );
    assert_eq!(
        validate_record(&record("  ", "other@1", "bad")).err(),
        Some(CharacterLibraryError::InvalidEntryId)
    );
    assert_eq!(
        validate_record(&record("library-id", "other@1", "bad")).err(),
        Some(CharacterLibraryError::UnexpectedContentType)
    );
    assert_eq!(
        validate_record(&record("library-id", CHARACTER_TEMPLATE_CONTENT_V1, "bad")).err(),
        Some(CharacterLibraryError::InvalidRevision)
    );
    assert_eq!(
        validate_record(&record(&"x".repeat(129), CHARACTER_TEMPLATE_CONTENT_V1, REVISION)).err(),
        Some(CharacterLibraryError::InvalidEntryId)
    );
}

#[test]
fn templates_need_a_name_and_valid_asset_names() {
    assert_eq!(validate_template("Alice", &vec!["portrait".to_string()]), Ok(()));
    assert_eq!(
        validate_template(" ", &Vec::new()),
        Err(CharacterTemplateError::InvalidName)
    );
    assert_eq!(
        validate_template(
            "Alice",
            &vec!["ok".to_string(), "".to_string(), "x".repeat(200)]
        ),
        Err(CharacterTemplateError::InvalidAssetName(String::new()))
    );
}

#[test]
fn identity_plan_copies_name_and_revision() {
    let revision = ArtifactDigest::parse(REVISION).unwrap();
    let facet = plan_character_identity(
        "Alice",
        &Vec::new(),
        "library-id".to_string(),
        &revision,
    )
    .unwrap();
    assert_eq!(facet.name, "Alice");
    assert_eq!(facet.template_id, "library-id");
    assert_eq!(facet.template_revision, REVISION);

    assert_eq!(
        plan_character_identity("Alice", &Vec::new(), " ".to_string(), &revision).err(),
        Some(CharacterInstantiationError::InvalidTemplateId)
    );
    assert_eq!(
        plan_character_identity("", &Vec::new(), "library-id".to_string(), &revision).err(),
        Some(CharacterInstantiationError::InvalidTemplate(
            CharacterTemplateError::InvalidName
        ))
    );
}

#[test]
fn instantiate_command_is_validated() {
    let command = CharacterInstantiateCommand {
        template_id: "library-id".to_string(),
        template_revision: REVISION.to_string(),
    };
    assert_eq!(command.validate().unwrap().as_str(), REVISION);
    let command = CharacterInstantiateCommand {
        template_id: "".to_string(),
        template_revision: REVISION.to_string(),
    };
    assert_eq!(
        command.validate().err(),
        Some(CharacterWorldMaterializationError::InvalidTemplateId)
    );
    let command = CharacterInstantiateCommand {
        template_id: "library-id".to_string(),
        template_revision: "same revision".to_string(),
    };
    assert_eq!(
        command.validate().err(),
        Some(CharacterWorldMaterializationError::InvalidTemplateRevision)
    );
}

#[test]
fn gateway_errors_have_messages() {
    assert_eq!(
        CharacterLibraryGatewayError::NotFound.message(),
        "user-content entry not found"
    );
    assert_eq!(
        CharacterLibraryError::Gateway(CharacterLibraryGatewayError::QueueFull),
        CharacterLibraryError::Gateway(CharacterLibraryGatewayError::QueueFull)
    );
}

#[test]
fn asset_names_equal_after_trimming_are_refused() {
    let names = vec![String::from("a"), String::from("a ")];
    assert_eq!(
        rtwkit::charlib::validate_template("Alice", &names),
        Err(rtwkit::charlib::CharacterTemplateError::InvalidAssetName(String::from("a ")))
    );
    let names = vec![String::from("a"), String::from("b")];
    assert_eq!(rtwkit::charlib::validate_template("Alice", &names), Ok(()));
    let names = vec![String::from("  "), String::from("b")];
    assert_eq!(
        rtwkit::charlib::validate_template("Alice", &names),
        Err(rtwkit::charlib::CharacterTemplateError::InvalidAssetName(String::from("  ")))
    );
}
