//! Character library records: user-content metadata, template identity checks,
//! and what a character instantiation copies from a template.

use vstd::prelude::*;

use crate::text::{byte_len, is_blank, str_byte_len, str_equal, str_is_blank, trim, trim_string};

verus! {

/// Most templates loaded into one library snapshot.
pub const MAX_CHARACTER_LIBRARY_ENTRIES: usize = 128;
/// Longest user-content identity, in UTF-8 bytes.
pub const MAX_CHARACTER_LIBRARY_ID_BYTES: usize = 128;
/// Longest imported card text, in UTF-8 bytes.
pub const MAX_CHARACTER_IMPORT_TEXT_BYTES: usize = 262144;
/// Content identity of character templates.
pub const CHARACTER_TEMPLATE_CONTENT_V1: &'static str = "rintawa.character-template@1";
/// Longest template name, in UTF-8 bytes.
pub const MAX_CHARACTER_NAME_BYTES: usize = 512;
/// Longest name of an additional asset, in UTF-8 bytes.
pub const MAX_ASSET_NAME_BYTES: usize = 128;

/// One user-content list record.
#[derive(Debug)]
pub struct CharacterContentRecord {
    /// Stable logical identity.
    pub id: String,
    /// Versioned content type.
    pub content: String,
    /// Immutable artifact revision digest.
    pub revision: String,
}

/// A user-content document: its record and its root descriptor bytes.
#[derive(Debug)]
pub struct CharacterContentDocument {
    /// Metadata, which must match the record it was read for.
    pub metadata: CharacterContentRecord,
    /// Template descriptor bytes.
    pub descriptor: Vec<u8>,
}

/// Failure reported by the host's user-content access.
#[derive(Debug, Clone, Copy, PartialEq, Eq, Structural)]
pub enum CharacterLibraryGatewayError {
    AccessNotActive,
    PermissionDenied,
    InvalidId,
    InvalidContent,
    NotFound,
    QueueFull,
    LimitExceeded,
    MessageTooLarge,
    Rejected,
    Unavailable,
}

/// Description of a gateway failure.
pub open spec fn gateway_error_text(e: CharacterLibraryGatewayError) -> Seq<char> {
    match e {
        CharacterLibraryGatewayError::AccessNotActive => "user-content host access is not active"@,
        CharacterLibraryGatewayError::PermissionDenied => "user-content runtime permission denied"@,
        CharacterLibraryGatewayError::InvalidId => "invalid user-content id"@,
        CharacterLibraryGatewayError::InvalidContent => "invalid user-content type"@,
        CharacterLibraryGatewayError::NotFound => "user-content entry not found"@,
        CharacterLibraryGatewayError::QueueFull => "user-content write queue is full"@,
        CharacterLibraryGatewayError::LimitExceeded => "user-content write callback budget is exhausted"@,
        CharacterLibraryGatewayError::MessageTooLarge => "user-content message exceeds host bounds"@,
        CharacterLibraryGatewayError::Rejected => "user-content read rejected"@,
        CharacterLibraryGatewayError::Unavailable => "user-content capability unavailable"@,
    }
}

impl CharacterLibraryGatewayError {
    /// Description of the failure.
    pub fn message(self) -> (r: &'static str)
        ensures
            r@ == gateway_error_text(self),
    {
        match self {
            CharacterLibraryGatewayError::AccessNotActive => "user-content host access is not active",
            CharacterLibraryGatewayError::PermissionDenied => "user-content runtime permission denied",
            CharacterLibraryGatewayError::InvalidId => "invalid user-content id",
            CharacterLibraryGatewayError::InvalidContent => "invalid user-content type",
            CharacterLibraryGatewayError::NotFound => "user-content entry not found",
            CharacterLibraryGatewayError::QueueFull => "user-content write queue is full",
            CharacterLibraryGatewayError::LimitExceeded => "user-content write callback budget is exhausted",
            CharacterLibraryGatewayError::MessageTooLarge => "user-content message exceeds host bounds",
            CharacterLibraryGatewayError::Rejected => "user-content read rejected",
            CharacterLibraryGatewayError::Unavailable => "user-content capability unavailable",
        }
    }
}

/// Why the character library refused host data or a user action.
#[derive(Debug, Clone, Copy, PartialEq, Eq, Structural)]
pub enum CharacterLibraryError {
    Gateway(CharacterLibraryGatewayError),
    CatalogTooLarge,
    InvalidEntryId,
    UnexpectedContentType,
    DuplicateEntryId,
    InvalidRevision,
    MetadataMismatch,
    DescriptorTooLarge,
    InvalidDescriptor,
    InvalidTemplate,
    RevisionOverflow,
    WrongSurface,
    StaleAction,
    InvalidActionPayload,
    EmptyImportSource,
    ImportSourceTooLarge,
    ImportAlreadyPending,
    ImportedEntryMissing,
    WrongActionNode,
    UnknownEntryAction,
    UnknownAction,
}

/// A canonical SHA-256 artifact digest: `sha256:` and 64 lowercase hex digits.
#[derive(Debug)]
pub struct ArtifactDigest {
    text: String,
}

impl View for ArtifactDigest {
    type V = Seq<char>;

    closed spec fn view(&self) -> Seq<char> {
        self.text@
    }
}

/// A lowercase hex digit.
pub open spec fn lower_hex(c: char) -> bool {
    ('0' <= c && c <= '9') || ('a' <= c && c <= 'f')
}

/// Canonical digest text.
pub open spec fn canonical_digest(s: Seq<char>) -> bool {
    &&& s.len() == 71
    &&& s.take(7) == "sha256:"@
    &&& forall|i: int| 7 <= i < 71 ==> lower_hex(#[trigger] s[i])
}

impl ArtifactDigest {
    /// Parses canonical digest text.
    pub fn parse(text: &str) -> (r: Option<ArtifactDigest>)
        ensures
            canonical_digest(text@) ==> (r matches Some(d) && d@ == text@),
            !canonical_digest(text@) ==> r is None,
    {
        let chars = crate::text::chars_of(text);
        if chars.len() != 71 {
            return None;
        }
        let prefix = crate::text::sub_chars(chars.as_slice(), 0, 7);
        let expected = crate::text::chars_of("sha256:");
        proof {
            reveal_strlit("sha256:");
            assert(chars@.subrange(0, 7) =~= chars@.take(7));
        }
        if !crate::text::chars_equal(prefix.as_slice(), expected.as_slice()) {
            return None;
        }
        let mut i: usize = 7;
        while i < 71
            invariant
                chars@ == text@,
                chars@.len() == 71,
                7 <= i <= 71,
                forall|k: int| 7 <= k < i ==> lower_hex(#[trigger] chars@[k]),
            decreases 71 - i,
        {
            let c = chars[i];
            if !(('0' <= c && c <= '9') || ('a' <= c && c <= 'f')) {
                return None;
            }
            i = i + 1;
        }
        Some(ArtifactDigest { text: String::from_str(text) })
    }

    /// The digest's text.
    pub fn as_str(&self) -> (r: &str)
        ensures
            r@ == self@,
    {
        self.text.as_str()
    }
}

/// Why a record's metadata is refused, if it is.
pub open spec fn record_error(id: Seq<char>, content: Seq<char>, revision: Seq<char>) -> Option<CharacterLibraryError> {
    if is_blank(id) || byte_len(id) > MAX_CHARACTER_LIBRARY_ID_BYTES {
        Some(CharacterLibraryError::InvalidEntryId)
    } else if content != CHARACTER_TEMPLATE_CONTENT_V1@ {
        Some(CharacterLibraryError::UnexpectedContentType)
    } else if !canonical_digest(revision) {
        Some(CharacterLibraryError::InvalidRevision)
    } else {
        None
    }
}

/// Checks a record: identity, content type and revision digest.
pub fn validate_record(record: &CharacterContentRecord) -> (r: Result<ArtifactDigest, CharacterLibraryError>)
    ensures
        match record_error(record.id@, record.content@, record.revision@) {
            Some(e) => r == Err::<ArtifactDigest, CharacterLibraryError>(e),
            None => r matches Ok(d) && d@ == record.revision@,
        },
{
    if str_is_blank(record.id.as_str()) || str_byte_len(record.id.as_str()) > MAX_CHARACTER_LIBRARY_ID_BYTES {
        return Err(CharacterLibraryError::InvalidEntryId);
    }
    if !str_equal(record.content.as_str(), CHARACTER_TEMPLATE_CONTENT_V1) {
        return Err(CharacterLibraryError::UnexpectedContentType);
    }
    match ArtifactDigest::parse(record.revision.as_str()) {
        Some(d) => Ok(d),
        None => Err(CharacterLibraryError::InvalidRevision),
    }
}

/// Why a character template is refused.
#[derive(Debug, Clone, PartialEq, Eq)]
pub enum CharacterTemplateError {
    /// The name is blank or too long.
    InvalidName,
    /// An additional asset name is blank or too long.
    InvalidAssetName(String),
}

/// A template name that is accepted.
pub open spec fn name_ok(name: Seq<char>) -> bool {
    !is_blank(name) && byte_len(name) <= MAX_CHARACTER_NAME_BYTES
}

/// An additional asset name that is accepted.
pub open spec fn asset_name_ok(name: Seq<char>) -> bool {
    !is_blank(name) && byte_len(name) <= MAX_ASSET_NAME_BYTES
}

/// Asset name `k` of `names` is valid and, trimmed, equals no earlier one
/// trimmed.
pub open spec fn asset_ok_at(names: Seq<String>, k: int) -> bool {
    &&& asset_name_ok(names[k]@)
    &&& forall|j: int| 0 <= j < k ==> trim((#[trigger] names[j])@) != trim(names[k]@)
}

/// Every asset name is valid, and no two are equal after trimming.
pub open spec fn asset_names_ok(names: Seq<String>) -> bool {
    forall|k: int| 0 <= k < names.len() ==> #[trigger] asset_ok_at(names, k)
}

/// `a` is the first refused asset name of `names`: blank, too long, or equal
/// after trimming to an earlier one.
pub open spec fn first_bad_asset(names: Seq<String>, a: Seq<char>) -> bool {
    exists|k: int|
        0 <= k < names.len() && !asset_ok_at(names, k) && names[k]@ == a && forall|j: int|
            0 <= j < k ==> #[trigger] asset_ok_at(names, j)
}

/// Checks a template's name and its additional asset names (in key order).
pub fn validate_template(name: &str, asset_names: &Vec<String>) -> (r: Result<(), CharacterTemplateError>)
    ensures
        !name_ok(name@) ==> r matches Err(CharacterTemplateError::InvalidName),
        name_ok(name@) ==> (r is Ok <==> asset_names_ok(asset_names@)),
        name_ok(name@) && r is Err ==> (r matches Err(CharacterTemplateError::InvalidAssetName(a)) && first_bad_asset(asset_names@, a@)),
{
    if str_is_blank(name) || str_byte_len(name) > MAX_CHARACTER_NAME_BYTES {
        return Err(CharacterTemplateError::InvalidName);
    }
    let mut trimmed: Vec<String> = Vec::new();
    let mut k: usize = 0;
    while k < asset_names.len()
        invariant
            name_ok(name@),
            k <= asset_names@.len(),
            trimmed@.len() == k,
            forall|j: int| 0 <= j < k ==> (#[trigger] trimmed@[j])@ == trim(asset_names@[j]@),
            forall|j: int| 0 <= j < k ==> #[trigger] asset_ok_at(asset_names@, j),
        decreases asset_names@.len() - k,
    {
        let a = asset_names[k].as_str();
        if str_is_blank(a) || str_byte_len(a) > MAX_ASSET_NAME_BYTES {
            let r = Err(CharacterTemplateError::InvalidAssetName(asset_names[k].clone()));
            proof {
                assert(!asset_ok_at(asset_names@, k as int));
                assert(first_bad_asset(asset_names@, asset_names@[k as int]@));
            }
            return r;
        }
        let t = trim_string(a);
        let mut m: usize = 0;
        while m < trimmed.len()
            invariant
                m <= trimmed@.len(),
                trimmed@.len() == k,
                k < asset_names@.len(),
                t@ == trim(asset_names@[k as int]@),
                forall|j: int| 0 <= j < k ==> (#[trigger] trimmed@[j])@ == trim(asset_names@[j]@),
                forall|j: int| 0 <= j < m ==> trim((#[trigger] asset_names@[j])@) != t@,
                name_ok(name@),
                asset_name_ok(asset_names@[k as int]@),
                forall|j: int| 0 <= j < k ==> #[trigger] asset_ok_at(asset_names@, j),
            decreases trimmed@.len() - m,
        {
            if str_equal(trimmed[m].as_str(), t.as_str()) {
                let r = Err(CharacterTemplateError::InvalidAssetName(asset_names[k].clone()));
                proof {
                    assert(trimmed@[m as int]@ == trim(asset_names@[m as int]@));
                    assert(!asset_ok_at(asset_names@, k as int));
                    assert(first_bad_asset(asset_names@, asset_names@[k as int]@));
                }
                return r;
            }
            m = m + 1;
        }
        proof {
            assert(asset_ok_at(asset_names@, k as int));
        }
        trimmed.push(t);
        k = k + 1;
    }
    Ok(())
}

/// Initialization hints for a new conversation.
#[derive(Debug)]
pub struct SessionInitializationHints {
    /// Preferred first message.
    pub greeting: String,
    /// Alternative first messages.
    pub alternate_greetings: Vec<String>,
}

/// Catalog metadata of a template.
#[derive(Debug)]
pub struct CharacterMetadata {
    /// Notes from the creator.
    pub creator_notes: String,
    /// Tags.
    pub tags: Vec<String>,
    /// Creator attribution.
    pub creator: String,
    /// Character version label.
    pub character_version: String,
}

/// The live identity copied from a template when a character is instantiated.
#[derive(Debug)]
pub struct CharacterIdentityFacet {
    /// Display name copied from the template.
    pub name: String,
    /// Logical library identity.
    pub template_id: String,
    /// Immutable revision instantiated.
    pub template_revision: String,
}

/// Why an instantiation was refused.
#[derive(Debug, Clone, PartialEq, Eq)]
pub enum CharacterInstantiationError {
    /// The library identity is blank or too long.
    InvalidTemplateId,
    /// A schema key could not be built.
    InvalidSchemaKey,
    /// The template is invalid.
    InvalidTemplate(CharacterTemplateError),
}

/// A library identity that is accepted: not blank, at most 128 bytes.
pub open spec fn template_id_ok(id: Seq<char>) -> bool {
    !is_blank(id) && byte_len(id) <= 128
}

/// The identity a character instantiated from a template gets: the template is
/// checked first, then its library identity.
pub fn plan_character_identity(name: &str, asset_names: &Vec<String>, template_id: String, revision: &ArtifactDigest) -> (r: Result<CharacterIdentityFacet, CharacterInstantiationError>)
    ensures
        !name_ok(name@) ==> r matches Err(CharacterInstantiationError::InvalidTemplate(CharacterTemplateError::InvalidName)),
        name_ok(name@) && !asset_names_ok(asset_names@) ==> r matches Err(
            CharacterInstantiationError::InvalidTemplate(CharacterTemplateError::InvalidAssetName(_)),
        ),
        name_ok(name@) && asset_names_ok(asset_names@) && !template_id_ok(template_id@) ==> r matches Err(
            CharacterInstantiationError::InvalidTemplateId,
        ),
        name_ok(name@) && asset_names_ok(asset_names@) && template_id_ok(template_id@) ==> (r matches Ok(f) && f.name@ == name@ && f.template_id == template_id
                && f.template_revision@ == revision@),
{
    match validate_template(name, asset_names) {
        Err(e) => return Err(CharacterInstantiationError::InvalidTemplate(e)),
        Ok(()) => {},
    }
    if str_is_blank(template_id.as_str()) || str_byte_len(template_id.as_str()) > 128 {
        return Err(CharacterInstantiationError::InvalidTemplateId);
    }
    Ok(CharacterIdentityFacet {
        name: String::from_str(name),
        template_id,
        template_revision: String::from_str(revision.as_str()),
    })
}

/// Why a materialization command was refused.
#[derive(Debug, Clone, Copy, PartialEq, Eq, Structural)]
pub enum CharacterWorldMaterializationError {
    /// The library identity is blank or too long.
    InvalidTemplateId,
    /// The revision is not a canonical digest.
    InvalidTemplateRevision,
}

/// Command to instantiate one template revision.
#[derive(Debug)]
pub struct CharacterInstantiateCommand {
    /// Logical library identity.
    pub template_id: String,
    /// Immutable revision selected.
    pub template_revision: String,
}

impl CharacterInstantiateCommand {
    /// Checks the identity and parses the revision digest.
    pub fn validate(&self) -> (r: Result<ArtifactDigest, CharacterWorldMaterializationError>)
        ensures
            !template_id_ok(self.template_id@) ==> r == Err::<ArtifactDigest, CharacterWorldMaterializationError>(
                CharacterWorldMaterializationError::InvalidTemplateId,
            ),
            template_id_ok(self.template_id@) && !canonical_digest(self.template_revision@) ==> r == Err::<
                ArtifactDigest,
                CharacterWorldMaterializationError,
            >(CharacterWorldMaterializationError::InvalidTemplateRevision),
            template_id_ok(self.template_id@) && canonical_digest(self.template_revision@) ==> (r matches Ok(d) && d@
                == self.template_revision@),
    {
        if str_is_blank(self.template_id.as_str()) || str_byte_len(self.template_id.as_str()) > 128 {
            return Err(CharacterWorldMaterializationError::InvalidTemplateId);
        }
        match ArtifactDigest::parse(self.template_revision.as_str()) {
            Some(d) => Ok(d),
            None => Err(CharacterWorldMaterializationError::InvalidTemplateRevision),
        }
    }
}

} // verus!
