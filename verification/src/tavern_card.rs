//! Character Card V2 JSON: importing a card into a character template with
//! its unknown fields kept aside, and exporting a template back to a card
//! that carries them again.

use vstd::prelude::*;

use crate::charlib::{validate_template, CharacterMetadata, CharacterTemplateError, SessionInitializationHints};
use crate::tavern::{AssetRef, CardError, TavernV2Artwork, MAX_TAVERN_CARD_BYTES};
use crate::text::str_equal;

verus! {

/// A JSON value as `serde_json` holds it.
#[verifier::external_type_specification]
#[verifier::external_body]
pub struct ExJsonValue(serde_json::Value);

/// A JSON document: numbers as their JSON text, objects as entry lists
/// (`serde_json` reads and writes objects as maps in key order, a later
/// entry of a key replacing an earlier one).
#[derive(Debug)]
pub enum JsonValue {
    Null,
    Bool(bool),
    Number(String),
    String(String),
    Array(Vec<JsonValue>),
    Object(Vec<(String, JsonValue)>),
}

/// The document `serde_json::from_slice` reads from `bytes`, if it reads one.
pub uninterp spec fn json_document(bytes: Seq<u8>) -> Option<JsonValue>;

/// The bytes `serde_json::to_vec_pretty` writes for a document.
pub uninterp spec fn json_pretty(v: JsonValue) -> Seq<u8>;

/// Converts a `serde_json` value, entry for entry.
#[verifier::external_body]
fn json_from_serde(v: serde_json::Value) -> (j: JsonValue) {
    match v {
        serde_json::Value::Null => JsonValue::Null,
        serde_json::Value::Bool(b) => JsonValue::Bool(b),
        serde_json::Value::Number(n) => JsonValue::Number(n.to_string()),
        serde_json::Value::String(s) => JsonValue::String(s),
        serde_json::Value::Array(a) => JsonValue::Array(a.into_iter().map(json_from_serde).collect()),
        serde_json::Value::Object(o) => JsonValue::Object(o.into_iter().map(|(k, v)| (k, json_from_serde(v))).collect()),
    }
}

/// Converts to a `serde_json` value, entry for entry (a number whose text
/// `serde_json` does not read as one becomes null).
#[verifier::external_body]
fn json_to_serde(v: &JsonValue) -> (j: serde_json::Value) {
    match v {
        JsonValue::Null => serde_json::Value::Null,
        JsonValue::Bool(b) => serde_json::Value::Bool(*b),
        JsonValue::Number(n) => n.parse().map(serde_json::Value::Number).unwrap_or(serde_json::Value::Null),
        JsonValue::String(s) => serde_json::Value::String(s.clone()),
        JsonValue::Array(a) => serde_json::Value::Array(a.iter().map(json_to_serde).collect()),
        JsonValue::Object(o) => serde_json::Value::Object(o.iter().map(|(k, v)| (k.clone(), json_to_serde(v))).collect()),
    }
}

/// Reads a JSON document with `serde_json::from_slice`; the contract claims
/// only that the outcome is a function of the bytes, and the error is
/// `serde_json`'s message.
#[verifier::external_body]
fn parse_json(bytes: &[u8]) -> (r: Result<JsonValue, String>)
    ensures
        match r {
            Ok(v) => json_document(bytes@) == Some(v),
            Err(_) => json_document(bytes@) is None,
        },
{
    match serde_json::from_slice::<serde_json::Value>(bytes) {
        Ok(v) => Ok(json_from_serde(v)),
        Err(e) => Err(e.to_string()),
    }
}

/// Writes a JSON document with `serde_json::to_vec_pretty`. The contract
/// claims that writing succeeds (a `serde_json::Value` has string keys and
/// finite numbers, and writing into a `Vec` cannot fail) and that the bytes
/// written are a function of the document.
#[verifier::external_body]
fn pretty_json(v: &JsonValue) -> (r: Result<Vec<u8>, String>)
    ensures
        r is Ok,
        r matches Ok(b) ==> b@ == json_pretty(*v),
{
    serde_json::to_vec_pretty(&json_to_serde(v)).map_err(|e| e.to_string())
}

/// The value of the first entry with key `k`.
pub open spec fn obj_get(entries: Seq<(String, JsonValue)>, k: Seq<char>) -> Option<JsonValue>
    decreases entries.len(),
{
    if entries.len() == 0 {
        None
    } else if entries[0].0@ == k {
        Some(entries[0].1)
    } else {
        obj_get(entries.drop_first(), k)
    }
}

/// Position of the first entry with key `k` (the length where there is none).
pub open spec fn key_index(entries: Seq<(String, JsonValue)>, k: Seq<char>) -> int
    decreases entries.len(),
{
    if entries.len() == 0 {
        0
    } else if entries[0].0@ == k {
        0
    } else {
        1 + key_index(entries.drop_first(), k)
    }
}

/// Index of the first entry with key `k`.
pub(crate) fn find_key(entries: &Vec<(String, JsonValue)>, k: &str) -> (r: Option<usize>)
    ensures
        match r {
            Some(i) => {
                &&& i < entries@.len()
                &&& obj_get(entries@, k@) == Some(entries@[i as int].1)
                &&& entries@[i as int].0@ == k@
                &&& i == key_index(entries@, k@)
            },
            None => obj_get(entries@, k@) is None,
        },
{
    let mut i: usize = 0;
    proof {
        assert(entries@.skip(0) =~= entries@);
    }
    while i < entries.len()
        invariant
            i <= entries@.len(),
            obj_get(entries@, k@) == obj_get(entries@.skip(i as int), k@),
            key_index(entries@, k@) == i + key_index(entries@.skip(i as int), k@),
        decreases entries@.len() - i,
    {
        proof {
            assert(entries@.skip(i as int)[0] == entries@[i as int]);
            assert(entries@.skip(i as int).drop_first() =~= entries@.skip(i + 1));
        }
        if str_equal(entries[i].0.as_str(), k) {
            return Some(i);
        }
        i = i + 1;
    }
    proof {
        assert(entries@.skip(i as int).len() == 0);
    }
    None
}

/// Two documents are the same: equal texts, numbers and flags, and the same
/// items and entries in the same order.
pub open spec fn json_same(a: JsonValue, b: JsonValue) -> bool
    decreases a,
{
    match a {
        JsonValue::Null => b is Null,
        JsonValue::Bool(x) => b matches JsonValue::Bool(y) && x == y,
        JsonValue::Number(x) => b matches JsonValue::Number(y) && x@ == y@,
        JsonValue::String(x) => b matches JsonValue::String(y) && x@ == y@,
        JsonValue::Array(x) => match b {
            JsonValue::Array(y) => x@.len() == y@.len() && forall|i: int|
                0 <= i < x@.len() ==> json_same(#[trigger] x@[i], y@[i]),
            _ => false,
        },
        JsonValue::Object(x) => match b {
            JsonValue::Object(y) => x@.len() == y@.len() && forall|i: int|
                0 <= i < x@.len() ==> (#[trigger] x@[i]).0@ == y@[i].0@ && json_same(x@[i].1, y@[i].1),
            _ => false,
        },
    }
}

/// A copy of a document.
fn copy_json(v: &JsonValue) -> (c: JsonValue)
    ensures
        json_same(*v, c),
    decreases v,
{
    match v {
        JsonValue::Null => JsonValue::Null,
        JsonValue::Bool(b) => JsonValue::Bool(*b),
        JsonValue::Number(n) => JsonValue::Number(n.clone()),
        JsonValue::String(t) => JsonValue::String(t.clone()),
        JsonValue::Array(items) => {
            let mut out: Vec<JsonValue> = Vec::new();
            let mut i: usize = 0;
            while i < items.len()
                invariant
                    i <= items@.len(),
                    out@.len() == i,
                    *v == JsonValue::Array(*items),
                    forall|j: int| 0 <= j < i ==> json_same(#[trigger] items@[j], out@[j]),
                decreases items@.len() - i,
            {
                proof {
                    vstd::std_specs::vec::axiom_vec_index_decreases(*items, i as int);
                    assert(decreases_to!(*v => v->Array_0));
                }
                let c = copy_json(&items[i]);
                out.push(c);
                i = i + 1;
            }
            JsonValue::Array(out)
        },
        JsonValue::Object(entries) => {
            let out = copy_entries(entries);
            JsonValue::Object(out)
        },
    }
}

/// Entry lists that are the same, entry for entry.
pub open spec fn entries_same(a: Seq<(String, JsonValue)>, b: Seq<(String, JsonValue)>) -> bool {
    a.len() == b.len() && forall|i: int| 0 <= i < a.len() ==> (#[trigger] a[i]).0@ == b[i].0@ && json_same(a[i].1, b[i].1)
}

/// A copy of an entry list.
fn copy_entries(entries: &Vec<(String, JsonValue)>) -> (c: Vec<(String, JsonValue)>)
    ensures
        entries_same(entries@, c@),
    decreases entries,
{
    let mut out: Vec<(String, JsonValue)> = Vec::new();
    let mut i: usize = 0;
    while i < entries.len()
        invariant
            i <= entries@.len(),
            out@.len() == i,
            forall|j: int| 0 <= j < i ==> (#[trigger] entries@[j]).0@ == out@[j].0@ && json_same(entries@[j].1, out@[j].1),
        decreases entries@.len() - i,
    {
        proof {
            vstd::std_specs::vec::axiom_vec_index_decreases(*entries, i as int);
        }
        let c = copy_json(&entries[i].1);
        out.push((entries[i].0.clone(), c));
        i = i + 1;
    }
    out
}

/// No key occurs twice.
pub open spec fn keys_distinct(e: Seq<(String, JsonValue)>) -> bool {
    forall|i: int, j: int| 0 <= i < j < e.len() ==> (#[trigger] e[i]).0@ != (#[trigger] e[j]).0@
}

proof fn lemma_get_none(e: Seq<(String, JsonValue)>, k: Seq<char>)
    ensures
        obj_get(e, k) is None <==> forall|i: int| 0 <= i < e.len() ==> (#[trigger] e[i]).0@ != k,
    decreases e.len(),
{
    if e.len() > 0 {
        lemma_get_none(e.drop_first(), k);
        assert forall|i: int| 0 < i < e.len() implies e[i] == #[trigger] e.drop_first()[i - 1] by {}
        if obj_get(e, k) is None {
            assert forall|i: int| 0 <= i < e.len() implies (#[trigger] e[i]).0@ != k by {
                if i > 0 {
                    assert(e[i] == e.drop_first()[i - 1]);
                }
            }
        }
        if forall|i: int| 0 <= i < e.len() ==> (#[trigger] e[i]).0@ != k {
            assert(e[0].0@ != k);
            assert forall|i: int| 0 <= i < e.drop_first().len() implies (#[trigger] e.drop_first()[i]).0@ != k by {
                assert(e.drop_first()[i] == e[i + 1]);
            }
        }
    }
}

/// A copy of an entry list keeping only the first entry of each key.
fn distinct_copy(entries: &Vec<(String, JsonValue)>) -> (c: Vec<(String, JsonValue)>)
    ensures
        keys_distinct(c@),
        forall|k: Seq<char>| same_opt(obj_get(entries@, k), #[trigger] obj_get(c@, k)),
{
    let mut out: Vec<(String, JsonValue)> = Vec::new();
    let mut i: usize = 0;
    proof {
        assert(entries@.take(0) =~= Seq::<(String, JsonValue)>::empty());
    }
    while i < entries.len()
        invariant
            i <= entries@.len(),
            keys_distinct(out@),
            forall|k: Seq<char>| same_opt(obj_get(entries@.take(i as int), k), #[trigger] obj_get(out@, k)),
        decreases entries@.len() - i,
    {
        let ghost before = out@;
        let ghost prefix = entries@.take(i as int);
        let ghost x = entries@[i as int];
        proof {
            assert(entries@.take(i + 1) =~= prefix.push(x));
        }
        match find_key(&out, entries[i].0.as_str()) {
            Some(_) => {
                proof {
                    assert forall|k: Seq<char>| same_opt(obj_get(entries@.take(i + 1), k), #[trigger] obj_get(out@, k)) by {
                        lemma_get_push(prefix, x, k);
                        assert(same_opt(obj_get(prefix, k), obj_get(out@, k)));
                        assert(same_opt(obj_get(prefix, x.0@), obj_get(out@, x.0@)));
                    }
                }
            },
            None => {
                let c = copy_json(&entries[i].1);
                let key = entries[i].0.clone();
                let ghost y = (key, c);
                out.push((key, c));
                proof {
                    lemma_get_none(before, x.0@);
                    assert(out@ == before.push(y));
                    assert forall|a: int, b: int| 0 <= a < b < out@.len() implies (#[trigger] out@[a]).0@ != (#[trigger] out@[b]).0@ by {
                        if b == before.len() {
                            assert(out@[a] == before[a]);
                        } else {
                            assert(out@[a] == before[a] && out@[b] == before[b]);
                        }
                    }
                    assert forall|k: Seq<char>| same_opt(obj_get(entries@.take(i + 1), k), #[trigger] obj_get(out@, k)) by {
                        lemma_get_push(prefix, x, k);
                        lemma_get_push(before, y, k);
                        assert(same_opt(obj_get(prefix, k), obj_get(before, k)));
                        assert(same_opt(obj_get(prefix, x.0@), obj_get(before, x.0@)));
                    }
                }
            },
        }
        i = i + 1;
    }
    proof {
        assert(entries@.take(i as int) =~= entries@);
    }
    out
}

/// Narration hints of a template.
#[derive(Debug)]
pub struct NarrationHints {
    pub scenario: String,
    pub system_prompt: String,
    pub post_history_instructions: String,
    pub message_examples: String,
    /// A card's character book, kept as it came.
    pub character_book: Option<JsonValue>,
}

/// Heavy resources of a template.
#[derive(Debug)]
pub struct CharacterAssets {
    pub portrait: Option<AssetRef>,
    /// Further named assets.
    pub additional: Vec<(String, AssetRef)>,
}

/// What a Character Card V2 source held beyond the template's fields.
#[derive(Debug)]
pub struct TavernV2Compatibility {
    pub spec_version: String,
    pub top_level_unknown: Vec<(String, JsonValue)>,
    pub data_unknown: Vec<(String, JsonValue)>,
    pub extensions: Vec<(String, JsonValue)>,
}

/// Source-format data kept for a faithful export.
#[derive(Debug)]
pub struct CompatibilityPayload {
    pub tavern_v2: Option<TavernV2Compatibility>,
}

/// A reusable character description.
#[derive(Debug)]
pub struct CharacterTemplate {
    pub name: String,
    pub description: String,
    pub personality: String,
    pub narration: NarrationHints,
    pub session: SessionInitializationHints,
    pub metadata: CharacterMetadata,
    pub assets: CharacterAssets,
    pub compatibility: CompatibilityPayload,
}

/// The names of further assets.
pub open spec fn asset_keys(additional: Seq<(String, AssetRef)>) -> Seq<String> {
    additional.map_values(|e: (String, AssetRef)| e.0)
}

impl CharacterTemplate {
    /// Checks the name, then each further asset name in order.
    pub fn validate(&self) -> (r: Result<(), CharacterTemplateError>)
        ensures
            !crate::charlib::name_ok(self.name@) ==> r matches Err(CharacterTemplateError::InvalidName),
            crate::charlib::name_ok(self.name@) ==> (r is Ok <==> crate::charlib::asset_names_ok(asset_keys(self.assets.additional@))),
            crate::charlib::name_ok(self.name@) && r is Err ==> (r matches Err(CharacterTemplateError::InvalidAssetName(a))
                && crate::charlib::first_bad_asset(asset_keys(self.assets.additional@), a@)),
            r is Ok <==> template_ok(*self),
    {
        let mut keys: Vec<String> = Vec::new();
        let mut k: usize = 0;
        while k < self.assets.additional.len()
            invariant
                k <= self.assets.additional@.len(),
                keys@ == asset_keys(self.assets.additional@).take(k as int),
            decreases self.assets.additional@.len() - k,
        {
            keys.push(self.assets.additional[k].0.clone());
            proof {
                assert(asset_keys(self.assets.additional@).take(k + 1) =~= asset_keys(self.assets.additional@).take(
                    k as int,
                ).push(self.assets.additional@[k as int].0));
            }
            k = k + 1;
        }
        proof {
            assert(asset_keys(self.assets.additional@).take(k as int) =~= asset_keys(self.assets.additional@));
        }
        validate_template(self.name.as_str(), &keys)
    }
}

/// Why a card cannot be imported or exported.
#[derive(Debug)]
pub enum TavernV2Error {
    /// The carriage (size, PNG, metadata, portrait) is refused.
    Card(CardError),
    /// The JSON does not parse; `serde_json`'s message.
    InvalidJson(String),
    /// The card is not a Character Card V2.
    UnsupportedSpec(String),
    /// The V2 spec version is not supported.
    UnsupportedVersion(String),
    /// A field has the wrong JSON type.
    InvalidFieldType { field: &'static str, expected: &'static str },
    /// The template read from the card is refused.
    InvalidTemplate(CharacterTemplateError),
}

/// `e` says field `field` must be `expected`.
pub open spec fn is_field_error(e: TavernV2Error, field: Seq<char>, expected: Seq<char>) -> bool {
    e matches TavernV2Error::InvalidFieldType { field: f, expected: x } && f@ == field && x@ == expected
}

/// A text field read with a default: absent, the empty text; a string, its
/// text; anything else is refused (`None`).
pub open spec fn default_string(o: Seq<(String, JsonValue)>, k: Seq<char>) -> Option<Seq<char>> {
    match obj_get(o, k) {
        None => Some(Seq::empty()),
        Some(JsonValue::String(t)) => Some(t@),
        Some(_) => None,
    }
}

/// Every item is a string.
pub open spec fn all_strings(a: Seq<JsonValue>) -> bool {
    forall|i: int| 0 <= i < a.len() ==> (#[trigger] a[i]) is String
}

/// The texts of string items.
pub open spec fn string_texts(a: Seq<JsonValue>) -> Seq<Seq<char>> {
    a.map_values(|v: JsonValue| match v {
        JsonValue::String(t) => t@,
        _ => Seq::empty(),
    })
}

/// A list-of-texts field read with a default: absent, none; an array of
/// strings, their texts; anything else is refused.
pub open spec fn default_strings(o: Seq<(String, JsonValue)>, k: Seq<char>) -> Option<Seq<Seq<char>>> {
    match obj_get(o, k) {
        None => Some(Seq::empty()),
        Some(JsonValue::Array(a)) => if all_strings(a@) {
            Some(string_texts(a@))
        } else {
            None
        },
        Some(_) => None,
    }
}

/// An object field read with a default: absent, no entries; an object, its
/// entries; anything else is refused.
pub open spec fn default_object(o: Seq<(String, JsonValue)>, k: Seq<char>) -> Option<Seq<(String, JsonValue)>> {
    match obj_get(o, k) {
        None => Some(Seq::empty()),
        Some(JsonValue::Object(e)) => Some(e@),
        Some(_) => None,
    }
}

fn read_default_string(o: &Vec<(String, JsonValue)>, k: &'static str, field: &'static str) -> (r: Result<String, TavernV2Error>)
    ensures
        match default_string(o@, k@) {
            Some(t) => r matches Ok(x) && x@ == t,
            None => r matches Err(e) && is_field_error(e, field@, "a string"@),
        },
{
    match find_key(o, k) {
        None => Ok(String::new()),
        Some(i) => match &o[i].1 {
            JsonValue::String(t) => Ok(t.clone()),
            _ => Err(TavernV2Error::InvalidFieldType { field, expected: "a string" }),
        },
    }
}

fn read_default_strings(o: &Vec<(String, JsonValue)>, k: &'static str, field: &'static str) -> (r: Result<
    Vec<String>,
    TavernV2Error,
>)
    ensures
        match default_strings(o@, k@) {
            Some(ts) => r matches Ok(x) && crate::manager::names(x@) == ts,
            None => r matches Err(e) && is_field_error(e, field@, "an array of strings"@),
        },
{
    match find_key(o, k) {
        None => {
            let out: Vec<String> = Vec::new();
            proof {
                assert(crate::manager::names(out@) =~= Seq::<Seq<char>>::empty());
            }
            Ok(out)
        },
        Some(i) => match &o[i].1 {
            JsonValue::Array(a) => {
                let mut out: Vec<String> = Vec::new();
                let mut j: usize = 0;
                while j < a.len()
                    invariant
                        j <= a@.len(),
                        out@.len() == j,
                        obj_get(o@, k@) == Some(JsonValue::Array(*a)),
                        forall|x: int| 0 <= x < j ==> (#[trigger] a@[x]) is String,
                        forall|x: int| 0 <= x < j ==> (#[trigger] out@[x])@ == string_texts(a@)[x],
                    decreases a@.len() - j,
                {
                    match &a[j] {
                        JsonValue::String(t) => out.push(t.clone()),
                        _ => {
                            proof {
                                assert(!all_strings(a@));
                            }
                            return Err(TavernV2Error::InvalidFieldType { field, expected: "an array of strings" });
                        },
                    }
                    j = j + 1;
                }
                proof {
                    assert(crate::manager::names(out@) =~= string_texts(a@));
                }
                Ok(out)
            },
            _ => Err(TavernV2Error::InvalidFieldType { field, expected: "an array of strings" }),
        },
    }
}

/// A key the card's data object defines.
pub open spec fn known_data_key(k: Seq<char>) -> bool {
    ||| k == "name"@
    ||| k == "description"@
    ||| k == "personality"@
    ||| k == "scenario"@
    ||| k == "first_mes"@
    ||| k == "mes_example"@
    ||| k == "creator_notes"@
    ||| k == "system_prompt"@
    ||| k == "post_history_instructions"@
    ||| k == "alternate_greetings"@
    ||| k == "character_book"@
    ||| k == "tags"@
    ||| k == "creator"@
    ||| k == "character_version"@
    ||| k == "extensions"@
}

/// A key the card's top level defines.
pub open spec fn known_top_key(k: Seq<char>) -> bool {
    k == "spec"@ || k == "spec_version"@ || k == "data"@
}

/// The entries with keys the card does not define, in order.
pub open spec fn keep_unknown(entries: Seq<(String, JsonValue)>, data_level: bool) -> Seq<(String, JsonValue)>
    decreases entries.len(),
{
    if entries.len() == 0 {
        Seq::empty()
    } else {
        let rest = keep_unknown(entries.drop_last(), data_level);
        let k = entries.last().0@;
        if (if data_level {
            known_data_key(k)
        } else {
            known_top_key(k)
        }) {
            rest
        } else {
            rest.push(entries.last())
        }
    }
}

fn is_known_key(k: &str, data_level: bool) -> (r: bool)
    ensures
        r == if data_level {
            known_data_key(k@)
        } else {
            known_top_key(k@)
        },
{
    if data_level {
        str_equal(k, "name") || str_equal(k, "description") || str_equal(k, "personality") || str_equal(k, "scenario")
            || str_equal(k, "first_mes") || str_equal(k, "mes_example") || str_equal(k, "creator_notes") || str_equal(
            k,
            "system_prompt",
        ) || str_equal(k, "post_history_instructions") || str_equal(k, "alternate_greetings") || str_equal(
            k,
            "character_book",
        ) || str_equal(k, "tags") || str_equal(k, "creator") || str_equal(k, "character_version") || str_equal(
            k,
            "extensions",
        )
    } else {
        str_equal(k, "spec") || str_equal(k, "spec_version") || str_equal(k, "data")
    }
}

/// Splits an entry list: the entries with unknown keys, moved in order, and
/// the values at the two positions asked for.
fn split_entries(entries: Vec<(String, JsonValue)>, data_level: bool, first: Option<usize>, second: Option<usize>) -> (r: (
    Vec<(String, JsonValue)>,
    Option<JsonValue>,
    Option<JsonValue>,
))
    requires
        first matches Some(i) ==> i < entries@.len() && (if data_level {
            known_data_key(entries@[i as int].0@)
        } else {
            known_top_key(entries@[i as int].0@)
        }),
        second matches Some(i) ==> i < entries@.len() && (if data_level {
            known_data_key(entries@[i as int].0@)
        } else {
            known_top_key(entries@[i as int].0@)
        }),
        first is Some && second is Some ==> first != second,
    ensures
        r.0@ == keep_unknown(entries@, data_level),
        match first {
            Some(i) => r.1 == Some(entries@[i as int].1),
            None => r.1 is None,
        },
        match second {
            Some(i) => r.2 == Some(entries@[i as int].1),
            None => r.2 is None,
        },
{
    let ghost all = entries@;
    let total = entries.len();
    let mut rest = entries;
    let mut kept: Vec<(String, JsonValue)> = Vec::new();
    let mut a: Option<JsonValue> = None;
    let mut b: Option<JsonValue> = None;
    let mut n: usize = 0;
    proof {
        assert(all.take(0) =~= Seq::<(String, JsonValue)>::empty());
        assert(all.skip(0) =~= all);
    }
    while rest.len() > 0
        invariant
            n <= all.len(),
            all.len() == total,
            rest@ == all.skip(n as int),
            first matches Some(i) ==> (if data_level {
                known_data_key(all[i as int].0@)
            } else {
                known_top_key(all[i as int].0@)
            }),
            second matches Some(i) ==> (if data_level {
                known_data_key(all[i as int].0@)
            } else {
                known_top_key(all[i as int].0@)
            }),
            first is Some && second is Some ==> first != second,
            kept@ == keep_unknown(all.take(n as int), data_level),
            first matches Some(i) ==> i < all.len(),
            second matches Some(i) ==> i < all.len(),
            match first {
                Some(i) => if i < n {
                    a == Some(all[i as int].1)
                } else {
                    a is None
                },
                None => a is None,
            },
            match second {
                Some(i) => if i < n {
                    b == Some(all[i as int].1)
                } else {
                    b is None
                },
                None => b is None,
            },
        decreases rest@.len(),
    {
        let (key, value) = rest.remove(0);
        proof {
            assert(all.skip(n as int)[0] == all[n as int]);
            assert(all.skip(n as int).remove(0) =~= all.skip(n + 1));
            assert(all.take(n + 1).drop_last() =~= all.take(n as int));
            assert(all.take(n + 1).last() == all[n as int]);
        }
        let is_first = match first {
            Some(i) => i == n,
            None => false,
        };
        let is_second = match second {
            Some(i) => i == n,
            None => false,
        };
        if is_known_key(key.as_str(), data_level) {
            if is_first {
                a = Some(value);
            } else if is_second {
                b = Some(value);
            }
        } else {
            kept.push((key, value));
        }
        n = n + 1;
    }
    proof {
        assert(all.take(n as int) =~= all);
    }
    (kept, a, b)
}

/// The first data field of the wrong type, as (field, expected), in the
/// order the card is read: extensions, alternate greetings, tags, then the
/// texts.
pub open spec fn data_error(d: Seq<(String, JsonValue)>) -> Option<(Seq<char>, Seq<char>)> {
    if default_object(d, "extensions"@) is None {
        Some(("data.extensions"@, "an object"@))
    } else if default_strings(d, "alternate_greetings"@) is None {
        Some(("data.alternate_greetings"@, "an array of strings"@))
    } else if default_strings(d, "tags"@) is None {
        Some(("data.tags"@, "an array of strings"@))
    } else if default_string(d, "name"@) is None {
        Some(("data.name"@, "a string"@))
    } else if default_string(d, "description"@) is None {
        Some(("data.description"@, "a string"@))
    } else if default_string(d, "personality"@) is None {
        Some(("data.personality"@, "a string"@))
    } else if default_string(d, "scenario"@) is None {
        Some(("data.scenario"@, "a string"@))
    } else if default_string(d, "system_prompt"@) is None {
        Some(("data.system_prompt"@, "a string"@))
    } else if default_string(d, "post_history_instructions"@) is None {
        Some(("data.post_history_instructions"@, "a string"@))
    } else if default_string(d, "mes_example"@) is None {
        Some(("data.mes_example"@, "a string"@))
    } else if default_string(d, "first_mes"@) is None {
        Some(("data.first_mes"@, "a string"@))
    } else if default_string(d, "creator_notes"@) is None {
        Some(("data.creator_notes"@, "a string"@))
    } else if default_string(d, "creator"@) is None {
        Some(("data.creator"@, "a string"@))
    } else if default_string(d, "character_version"@) is None {
        Some(("data.character_version"@, "a string"@))
    } else {
        None
    }
}

/// The card's data entries, once its envelope checks out.
pub open spec fn card_data(root: JsonValue) -> Option<Seq<(String, JsonValue)>> {
    match root {
        JsonValue::Object(top) => match obj_get(top@, "spec"@) {
            Some(JsonValue::String(spec)) => if spec@ != "chara_card_v2"@ {
                None
            } else {
                match obj_get(top@, "spec_version"@) {
                    Some(JsonValue::String(version)) => if version@ != "2.0"@ {
                        None
                    } else {
                        match obj_get(top@, "data"@) {
                            Some(JsonValue::Object(data)) => Some(data@),
                            _ => None,
                        }
                    },
                    _ => None,
                }
            },
            _ => None,
        },
        _ => None,
    }
}

/// How reading a card fails, if it does: the envelope (an object, with the
/// `chara_card_v2` spec, spec version 2.0 and a data object), then the data
/// fields' types, then the template's name.
pub open spec fn card_fails_as(root: JsonValue, e: TavernV2Error) -> bool {
    match root {
        JsonValue::Object(top) => match obj_get(top@, "spec"@) {
            Some(JsonValue::String(spec)) => if spec@ != "chara_card_v2"@ {
                e matches TavernV2Error::UnsupportedSpec(x) && x@ == spec@
            } else {
                match obj_get(top@, "spec_version"@) {
                    Some(JsonValue::String(version)) => if version@ != "2.0"@ {
                        e matches TavernV2Error::UnsupportedVersion(x) && x@ == version@
                    } else {
                        match obj_get(top@, "data"@) {
                            Some(JsonValue::Object(data)) => match data_error(data@) {
                                Some((f, x)) => is_field_error(e, f, x),
                                None => !crate::charlib::name_ok(default_string(data@, "name"@)->0) && e matches TavernV2Error::InvalidTemplate(
                                    CharacterTemplateError::InvalidName,
                                ),
                            },
                            _ => is_field_error(e, "data"@, "an object"@),
                        }
                    },
                    _ => is_field_error(e, "spec_version"@, "a string"@),
                }
            },
            _ => is_field_error(e, "spec"@, "a string"@),
        },
        _ => is_field_error(e, "$"@, "an object"@),
    }
}

/// The card reads as a template.
pub open spec fn card_ok(root: JsonValue) -> bool {
    card_data(root) matches Some(d) && data_error(d) is None && crate::charlib::name_ok(default_string(d, "name"@)->0)
}

/// The template read from a card: each text from its data field (empty where
/// absent), the greetings and tags, the character book as it came, no
/// assets, and the spec version, the unknown top-level and data entries and
/// the extensions kept for export.
pub open spec fn card_read_as(root: JsonValue, t: CharacterTemplate) -> bool {
    let top = root->Object_0@;
    let d = card_data(root)->0;
    &&& t.name@ == default_string(d, "name"@)->0
    &&& t.description@ == default_string(d, "description"@)->0
    &&& t.personality@ == default_string(d, "personality"@)->0
    &&& t.narration.scenario@ == default_string(d, "scenario"@)->0
    &&& t.narration.system_prompt@ == default_string(d, "system_prompt"@)->0
    &&& t.narration.post_history_instructions@ == default_string(d, "post_history_instructions"@)->0
    &&& t.narration.message_examples@ == default_string(d, "mes_example"@)->0
    &&& t.narration.character_book == obj_get(d, "character_book"@)
    &&& t.session.greeting@ == default_string(d, "first_mes"@)->0
    &&& crate::manager::names(t.session.alternate_greetings@) == default_strings(d, "alternate_greetings"@)->0
    &&& t.metadata.creator_notes@ == default_string(d, "creator_notes"@)->0
    &&& crate::manager::names(t.metadata.tags@) == default_strings(d, "tags"@)->0
    &&& t.metadata.creator@ == default_string(d, "creator"@)->0
    &&& t.metadata.character_version@ == default_string(d, "character_version"@)->0
    &&& t.assets.portrait is None
    &&& t.assets.additional@.len() == 0
    &&& t.compatibility.tavern_v2 matches Some(c)
    &&& c.spec_version@ == "2.0"@
    &&& c.top_level_unknown@ == keep_unknown(top, false)
    &&& c.data_unknown@ == keep_unknown(d, true)
    &&& c.extensions@ == default_object(d, "extensions"@)->0
}

fn field_string(o: &Vec<(String, JsonValue)>, k: &'static str, field: &'static str) -> (r: Result<String, TavernV2Error>)
    ensures
        match obj_get(o@, k@) {
            Some(JsonValue::String(t)) => r matches Ok(x) && x@ == t@,
            _ => r matches Err(e) && is_field_error(e, field@, "a string"@),
        },
{
    match find_key(o, k) {
        Some(i) => match &o[i].1 {
            JsonValue::String(t) => Ok(t.clone()),
            _ => Err(TavernV2Error::InvalidFieldType { field, expected: "a string" }),
        },
        None => Err(TavernV2Error::InvalidFieldType { field, expected: "a string" }),
    }
}

/// Reads a parsed card into a template, keeping what the template has no
/// field for.
#[verifier::rlimit(60)]
#[verifier::spinoff_prover]
pub fn card_template(root: JsonValue) -> (r: Result<CharacterTemplate, TavernV2Error>)
    ensures
        r is Ok <==> card_ok(root),
        r matches Ok(t) ==> card_read_as(root, t),
        r matches Err(e) ==> card_fails_as(root, e),
{
    let ghost original = root;
    let top = match root {
        JsonValue::Object(entries) => entries,
        _ => return Err(TavernV2Error::InvalidFieldType { field: "$", expected: "an object" }),
    };
    let spec = field_string(&top, "spec", "spec")?;
    if !str_equal(spec.as_str(), "chara_card_v2") {
        return Err(TavernV2Error::UnsupportedSpec(spec));
    }
    let version = field_string(&top, "spec_version", "spec_version")?;
    if !str_equal(version.as_str(), "2.0") {
        return Err(TavernV2Error::UnsupportedVersion(version));
    }
    let data_at = match find_key(&top, "data") {
        Some(i) => match &top[i].1 {
            JsonValue::Object(_) => i,
            _ => return Err(TavernV2Error::InvalidFieldType { field: "data", expected: "an object" }),
        },
        None => return Err(TavernV2Error::InvalidFieldType { field: "data", expected: "an object" }),
    };
    let ghost d = top@[data_at as int].1->Object_0@;
    let extensions_at = match &top[data_at].1 {
        JsonValue::Object(data) => match find_key(data, "extensions") {
            Some(i) => match &data[i].1 {
                JsonValue::Object(_) => Some(i),
                _ => return Err(TavernV2Error::InvalidFieldType { field: "data.extensions", expected: "an object" }),
            },
            None => None,
        },
        _ => None,
    };
    let (alternate_greetings, tags, name, description, personality, scenario, system_prompt, post_history, examples, greeting,
        creator_notes, creator, character_version, book_at) = match &top[data_at].1 {
        JsonValue::Object(data) => {
            let alternate_greetings = read_default_strings(data, "alternate_greetings", "data.alternate_greetings")?;
            let tags = read_default_strings(data, "tags", "data.tags")?;
            let name = read_default_string(data, "name", "data.name")?;
            let description = read_default_string(data, "description", "data.description")?;
            let personality = read_default_string(data, "personality", "data.personality")?;
            let scenario = read_default_string(data, "scenario", "data.scenario")?;
            let system_prompt = read_default_string(data, "system_prompt", "data.system_prompt")?;
            let post_history = read_default_string(data, "post_history_instructions", "data.post_history_instructions")?;
            let examples = read_default_string(data, "mes_example", "data.mes_example")?;
            let greeting = read_default_string(data, "first_mes", "data.first_mes")?;
            let creator_notes = read_default_string(data, "creator_notes", "data.creator_notes")?;
            let creator = read_default_string(data, "creator", "data.creator")?;
            let character_version = read_default_string(data, "character_version", "data.character_version")?;
            let book_at = find_key(data, "character_book");
            (alternate_greetings, tags, name, description, personality, scenario, system_prompt, post_history, examples,
                greeting, creator_notes, creator, character_version, book_at)
        },
        _ => return Err(TavernV2Error::InvalidFieldType { field: "data", expected: "an object" }),
    };
    if validate_template(name.as_str(), &Vec::new()).is_err() {
        return Err(TavernV2Error::InvalidTemplate(CharacterTemplateError::InvalidName));
    }
    let ghost top_entries = top@;
    let (top_unknown, data_value, _none) = split_entries(top, false, Some(data_at), None);
    let data_entries = match data_value {
        Some(JsonValue::Object(entries)) => entries,
        _ => Vec::new(),
    };
    proof {
        assert(data_entries@ == d);
    }
    proof {
        reveal_strlit("character_book");
        reveal_strlit("extensions");
        assert("character_book"@.len() != "extensions"@.len());
    }
    let (data_unknown, book, extensions_value) = split_entries(data_entries, true, book_at, extensions_at);
    let extensions = match extensions_value {
        Some(JsonValue::Object(entries)) => entries,
        _ => Vec::new(),
    };
    proof {
        assert(extensions@ == default_object(d, "extensions"@)->0);
    }
    Ok(
        CharacterTemplate {
            name,
            description,
            personality,
            narration: NarrationHints {
                scenario,
                system_prompt,
                post_history_instructions: post_history,
                message_examples: examples,
                character_book: book,
            },
            session: SessionInitializationHints { greeting, alternate_greetings },
            metadata: CharacterMetadata { creator_notes, tags, creator, character_version },
            assets: CharacterAssets { portrait: None, additional: Vec::new() },
            compatibility: CompatibilityPayload {
                tavern_v2: Some(
                    TavernV2Compatibility {
                        spec_version: version,
                        top_level_unknown: top_unknown,
                        data_unknown,
                        extensions,
                    },
                ),
            },
        },
    )
}

/// How importing a card's JSON ends: refused as too large, as unreadable
/// JSON, or as the card reads.
pub open spec fn json_import(bytes: Seq<u8>, r: Result<CharacterTemplate, TavernV2Error>) -> bool {
    if bytes.len() > MAX_TAVERN_CARD_BYTES {
        r matches Err(TavernV2Error::Card(CardError::InputTooLarge))
    } else {
        match json_document(bytes) {
            None => r matches Err(TavernV2Error::InvalidJson(_)),
            Some(root) => {
                &&& r is Ok <==> card_ok(root)
                &&& r matches Ok(t) ==> card_read_as(root, t)
                &&& r matches Err(e) ==> card_fails_as(root, e)
            },
        }
    }
}

/// Imports a card from its JSON.
pub fn import_tavern_v2_json(json: &[u8]) -> (r: Result<CharacterTemplate, TavernV2Error>)
    ensures
        json_import(json@, r),
{
    if json.len() > MAX_TAVERN_CARD_BYTES {
        return Err(TavernV2Error::Card(CardError::InputTooLarge));
    }
    match parse_json(json) {
        Ok(root) => card_template(root),
        Err(message) => Err(TavernV2Error::InvalidJson(message)),
    }
}

/// A card imported with the portrait artwork its PNG carried, if any.
#[derive(Debug)]
pub struct TavernV2Import {
    pub template: CharacterTemplate,
    pub portrait: Option<TavernV2Artwork>,
}

/// Imports a card from raw JSON or a PNG with a `chara` chunk, keeping the
/// PNG's artwork (without that chunk) for publication.
pub fn import_tavern_v2_with_artwork(bytes: &[u8]) -> (r: Result<TavernV2Import, TavernV2Error>)
    ensures
        match crate::tavern::card_carriage(bytes@) {
            Err(e) => r matches Err(TavernV2Error::Card(x)) && x == e,
            Ok((json, art)) => {
                &&& json_import(
                    json,
                    match r {
                        Ok(i) => Ok(i.template),
                        Err(e) => Err(e),
                    },
                )
                &&& r matches Ok(i) ==> match art {
                    Some(a) => i.portrait matches Some(p) && p@ == a,
                    None => i.portrait is None,
                }
            },
        },
{
    let (json, portrait) = match crate::tavern::read_card_carriage(bytes) {
        Ok(x) => x,
        Err(e) => return Err(TavernV2Error::Card(e)),
    };
    let template = import_tavern_v2_json(json.as_slice())?;
    Ok(TavernV2Import { template, portrait })
}

/// Imports a card from raw JSON or a PNG, without its artwork.
pub fn import_tavern_v2(bytes: &[u8]) -> (r: Result<CharacterTemplate, TavernV2Error>)
    ensures
        match crate::tavern::card_carriage(bytes@) {
            Err(e) => r matches Err(TavernV2Error::Card(x)) && x == e,
            Ok((json, _)) => json_import(json, r),
        },
{
    match import_tavern_v2_with_artwork(bytes) {
        Ok(i) => Ok(i.into_template()),
        Err(e) => Err(e),
    }
}

impl TavernV2Import {
    /// The template, without binding a portrait.
    pub fn into_template(self) -> (t: CharacterTemplate)
        ensures
            t == self.template,
    {
        self.template
    }

    /// Binds the published portrait: the reference must identify exactly the
    /// extracted artwork, and the template with it must still be valid.
    pub fn bind_portrait(self, reference: AssetRef) -> (r: Result<CharacterTemplate, TavernV2Error>)
        ensures
            match self.portrait {
                None => r matches Err(TavernV2Error::Card(CardError::MissingPngArtwork)),
                Some(a) => if !crate::tavern::identifies(reference, a@) {
                    r matches Err(TavernV2Error::Card(CardError::PortraitAssetMismatch))
                } else {
                    &&& r is Ok <==> template_ok(self.template)
                    &&& r matches Ok(t) ==> t == (CharacterTemplate {
                        assets: CharacterAssets { portrait: Some(reference), ..self.template.assets },
                        ..self.template
                    })
                    &&& r matches Err(e) ==> e matches TavernV2Error::InvalidTemplate(_)
                },
            },
    {
        if let Err(e) = crate::tavern::check_portrait_binding(self.portrait.as_ref(), &reference) {
            return Err(TavernV2Error::Card(e));
        }
        let mut template = self.template;
        template.assets.portrait = Some(reference);
        match template.validate() {
            Ok(()) => Ok(template),
            Err(e) => Err(TavernV2Error::InvalidTemplate(e)),
        }
    }
}

/// The entries without those keyed `k`, in order.
pub open spec fn without_key(e: Seq<(String, JsonValue)>, k: Seq<char>) -> Seq<(String, JsonValue)>
    decreases e.len(),
{
    if e.len() == 0 {
        Seq::empty()
    } else if e[0].0@ == k {
        without_key(e.drop_first(), k)
    } else {
        seq![e[0]] + without_key(e.drop_first(), k)
    }
}

proof fn lemma_get_without(e: Seq<(String, JsonValue)>, k: Seq<char>, k2: Seq<char>)
    ensures
        obj_get(without_key(e, k), k2) == if k2 == k {
            None
        } else {
            obj_get(e, k2)
        },
    decreases e.len(),
{
    if e.len() > 0 {
        lemma_get_without(e.drop_first(), k, k2);
        if e[0].0@ != k {
            let w = seq![e[0]] + without_key(e.drop_first(), k);
            assert(w[0] == e[0]);
            assert(w.drop_first() =~= without_key(e.drop_first(), k));
        }
    }
}

proof fn lemma_without_push(e: Seq<(String, JsonValue)>, x: (String, JsonValue), k: Seq<char>)
    ensures
        without_key(e.push(x), k) == if x.0@ == k {
            without_key(e, k)
        } else {
            without_key(e, k).push(x)
        },
    decreases e.len(),
{
    if e.len() == 0 {
        assert(e.push(x).drop_first() =~= e);
        if x.0@ != k {
            assert(seq![x] + Seq::<(String, JsonValue)>::empty() =~= Seq::<(String, JsonValue)>::empty().push(x));
        }
    } else {
        lemma_without_push(e.drop_first(), x, k);
        assert(e.push(x).drop_first() =~= e.drop_first().push(x));
        assert(e.push(x)[0] == e[0]);
        if e[0].0@ != k {
            if x.0@ != k {
                assert(seq![e[0]] + without_key(e.drop_first(), k).push(x) =~= (seq![e[0]] + without_key(e.drop_first(), k)).push(x));
            }
        }
    }
}

proof fn lemma_get_push(e: Seq<(String, JsonValue)>, x: (String, JsonValue), k: Seq<char>)
    ensures
        obj_get(e.push(x), k) == match obj_get(e, k) {
            Some(v) => Some(v),
            None => if x.0@ == k {
                Some(x.1)
            } else {
                None
            },
        },
    decreases e.len(),
{
    if e.len() > 0 {
        lemma_get_push(e.drop_first(), x, k);
        assert(e.push(x).drop_first() =~= e.drop_first().push(x));
    } else {
        assert(e.push(x).drop_first() =~= e);
    }
}

proof fn lemma_without_distinct(e: Seq<(String, JsonValue)>, k: Seq<char>)
    requires
        keys_distinct(e),
    ensures
        keys_distinct(without_key(e, k)),
    decreases e.len(),
{
    if e.len() > 0 {
        let rest = e.drop_first();
        assert(keys_distinct(rest)) by {
            assert forall|i: int, j: int| 0 <= i < j < rest.len() implies (#[trigger] rest[i]).0@ != (#[trigger] rest[j]).0@ by {
                assert(rest[i] == e[i + 1] && rest[j] == e[j + 1]);
            }
        }
        lemma_without_distinct(rest, k);
        if e[0].0@ != k {
            let w = without_key(rest, k);
            let whole = seq![e[0]] + w;
            assert forall|i: int| 0 <= i < rest.len() implies (#[trigger] rest[i]).0@ != e[0].0@ by {
                assert(rest[i] == e[i + 1]);
            }
            lemma_get_none(rest, e[0].0@);
            lemma_get_without(rest, k, e[0].0@);
            lemma_get_none(w, e[0].0@);
            assert forall|i: int, j: int| 0 <= i < j < whole.len() implies (#[trigger] whole[i]).0@ != (#[trigger] whole[j]).0@ by {
                assert(whole[j] == w[j - 1]);
                if i > 0 {
                    assert(whole[i] == w[i - 1]);
                }
            }
        }
    }
}

/// Sets `k` to `v`: the entries keyed `k` give way to one, appended.
fn obj_set(entries: &mut Vec<(String, JsonValue)>, k: &str, v: JsonValue)
    ensures
        obj_get(final(entries)@, k@) == Some(v),
        forall|k2: Seq<char>| k2 != k@ ==> #[trigger] obj_get(final(entries)@, k2) == obj_get(old(entries)@, k2),
        keys_distinct(old(entries)@) ==> keys_distinct(final(entries)@),
{
    obj_remove(entries, k);
    let ghost before = entries@;
    let key = String::from_str(k);
    let ghost x = (key, v);
    entries.push((key, v));
    proof {
        if keys_distinct(old(entries)@) {
            lemma_without_distinct(old(entries)@, k@);
            lemma_get_none(before, k@);
            assert forall|a: int, b: int| 0 <= a < b < entries@.len() implies (#[trigger] entries@[a]).0@ != (#[trigger] entries@[b]).0@ by {
                if b == before.len() {
                    assert(entries@[a] == before[a]);
                } else {
                    assert(entries@[a] == before[a] && entries@[b] == before[b]);
                }
            }
        }
        lemma_get_push(before, x, k@);
        assert forall|k2: Seq<char>| k2 != k@ implies #[trigger] obj_get(entries@, k2) == obj_get(old(entries)@, k2) by {
            lemma_get_push(before, x, k2);
        }
    }
}

/// Removes the entries keyed `k`.
fn obj_remove(entries: &mut Vec<(String, JsonValue)>, k: &str)
    ensures
        keys_distinct(old(entries)@) ==> keys_distinct(final(entries)@),
        final(entries)@ == without_key(old(entries)@, k@),
        obj_get(final(entries)@, k@) is None,
        forall|k2: Seq<char>| k2 != k@ ==> #[trigger] obj_get(final(entries)@, k2) == obj_get(old(entries)@, k2),
{
    let ghost all = entries@;
    let total = entries.len();
    let mut kept: Vec<(String, JsonValue)> = Vec::new();
    let mut n: usize = 0;
    proof {
        assert(all.take(0) =~= Seq::<(String, JsonValue)>::empty());
        assert(all.skip(0) =~= all);
    }
    while entries.len() > 0
        invariant
            n <= all.len(),
            all.len() == total,
            entries@ == all.skip(n as int),
            kept@ == without_key(all.take(n as int), k@),
        decreases entries@.len(),
    {
        let e = entries.remove(0);
        proof {
            assert(all.skip(n as int)[0] == all[n as int]);
            assert(all.skip(n as int).remove(0) =~= all.skip(n + 1));
            assert(all.take(n + 1) =~= all.take(n as int).push(all[n as int]));
            lemma_without_push(all.take(n as int), all[n as int], k@);
        }
        if !str_equal(e.0.as_str(), k) {
            kept.push(e);
        }
        n = n + 1;
    }
    proof {
        assert(all.take(n as int) =~= all);
    }
    *entries = kept;
    proof {
        if keys_distinct(all) {
            lemma_without_distinct(all, k@);
        }
        lemma_get_without(all, k@, k@);
        assert forall|k2: Seq<char>| k2 != k@ implies #[trigger] obj_get(entries@, k2) == obj_get(all, k2) by {
            lemma_get_without(all, k@, k2);
        }
    }
}

/// Two optional documents are both absent or the same.
pub open spec fn same_opt(a: Option<JsonValue>, b: Option<JsonValue>) -> bool {
    match (a, b) {
        (None, None) => true,
        (Some(x), Some(y)) => json_same(x, y),
        _ => false,
    }
}

/// Entry `k` of `o` is the string `t`.
pub open spec fn has_string(o: Seq<(String, JsonValue)>, k: Seq<char>, t: Seq<char>) -> bool {
    obj_get(o, k) matches Some(JsonValue::String(x)) && x@ == t
}

/// Entry `k` of `o` is an array of the strings `ts`.
pub open spec fn has_strings(o: Seq<(String, JsonValue)>, k: Seq<char>, ts: Seq<Seq<char>>) -> bool {
    obj_get(o, k) matches Some(JsonValue::Array(a)) && all_strings(a@) && string_texts(a@) == ts
}

/// The kept entries of a template, none where it kept none.
pub open spec fn kept_top(t: CharacterTemplate) -> Seq<(String, JsonValue)> {
    match t.compatibility.tavern_v2 {
        Some(c) => c.top_level_unknown@,
        None => Seq::empty(),
    }
}

/// The kept data entries of a template.
pub open spec fn kept_data(t: CharacterTemplate) -> Seq<(String, JsonValue)> {
    match t.compatibility.tavern_v2 {
        Some(c) => c.data_unknown@,
        None => Seq::empty(),
    }
}

/// The kept extensions of a template.
pub open spec fn kept_extensions(t: CharacterTemplate) -> Seq<(String, JsonValue)> {
    match t.compatibility.tavern_v2 {
        Some(c) => c.extensions@,
        None => Seq::empty(),
    }
}

/// The card data a template exports, each key once: each field from the
/// template, the kept extensions (the first entry of each key), the
/// character book where the template has one (and none otherwise), and
/// every other key as first kept.
pub open spec fn data_exported(t: CharacterTemplate, d: Seq<(String, JsonValue)>) -> bool {
    &&& has_string(d, "name"@, t.name@)
    &&& has_string(d, "description"@, t.description@)
    &&& has_string(d, "personality"@, t.personality@)
    &&& has_string(d, "scenario"@, t.narration.scenario@)
    &&& has_string(d, "first_mes"@, t.session.greeting@)
    &&& has_string(d, "mes_example"@, t.narration.message_examples@)
    &&& has_string(d, "creator_notes"@, t.metadata.creator_notes@)
    &&& has_string(d, "system_prompt"@, t.narration.system_prompt@)
    &&& has_string(d, "post_history_instructions"@, t.narration.post_history_instructions@)
    &&& has_strings(d, "alternate_greetings"@, crate::manager::names(t.session.alternate_greetings@))
    &&& has_strings(d, "tags"@, crate::manager::names(t.metadata.tags@))
    &&& has_string(d, "creator"@, t.metadata.creator@)
    &&& has_string(d, "character_version"@, t.metadata.character_version@)
    &&& obj_get(d, "extensions"@) matches Some(JsonValue::Object(x)) && keys_distinct(x@) && forall|k: Seq<char>|
        same_opt(obj_get(kept_extensions(t), k), #[trigger] obj_get(x@, k))
    &&& same_opt(t.narration.character_book, obj_get(d, "character_book"@))
    &&& forall|k: Seq<char>| !known_data_key(k) ==> same_opt(obj_get(kept_data(t), k), #[trigger] obj_get(d, k))
    &&& keys_distinct(d)
}

/// The card a template exports: the `chara_card_v2` spec, its kept spec
/// version (2.0 where none was kept), its data, and every other top-level
/// key as kept.
pub open spec fn exported(t: CharacterTemplate, doc: JsonValue) -> bool {
    &&& doc matches JsonValue::Object(root)
    &&& keys_distinct(root@)
    &&& has_string(root@, "spec"@, "chara_card_v2"@)
    &&& has_string(
        root@,
        "spec_version"@,
        match t.compatibility.tavern_v2 {
            Some(c) => c.spec_version@,
            None => "2.0"@,
        },
    )
    &&& obj_get(root@, "data"@) matches Some(JsonValue::Object(data))
    &&& data_exported(t, data@)
    &&& forall|k: Seq<char>| !known_top_key(k) ==> same_opt(obj_get(kept_top(t), k), #[trigger] obj_get(root@, k))
}

fn string_value(t: &String) -> (v: JsonValue)
    ensures
        v matches JsonValue::String(x) && x@ == t@,
{
    JsonValue::String(t.clone())
}

fn strings_value(ts: &Vec<String>) -> (v: JsonValue)
    ensures
        v matches JsonValue::Array(a) && all_strings(a@) && string_texts(a@) == crate::manager::names(ts@),
{
    let mut out: Vec<JsonValue> = Vec::new();
    let mut k: usize = 0;
    while k < ts.len()
        invariant
            k <= ts@.len(),
            out@.len() == k,
            forall|j: int| 0 <= j < k ==> ((#[trigger] out@[j]) matches JsonValue::String(x) && x@ == ts@[j]@),
        decreases ts@.len() - k,
    {
        out.push(JsonValue::String(ts[k].clone()));
        k = k + 1;
    }
    proof {
        assert(string_texts(out@) =~= crate::manager::names(ts@));
    }
    JsonValue::Array(out)
}

proof fn reveal_card_keys()
    ensures
        "name"@ != "description"@,
        "name"@ != "personality"@,
        "name"@ != "scenario"@,
        "name"@ != "first_mes"@,
        "name"@ != "mes_example"@,
        "name"@ != "creator_notes"@,
        "name"@ != "system_prompt"@,
        "name"@ != "post_history_instructions"@,
        "name"@ != "alternate_greetings"@,
        "name"@ != "tags"@,
        "name"@ != "creator"@,
        "name"@ != "character_version"@,
        "name"@ != "extensions"@,
        "name"@ != "character_book"@,
        "description"@ != "personality"@,
        "description"@ != "scenario"@,
        "description"@ != "first_mes"@,
        "description"@ != "mes_example"@,
        "description"@ != "creator_notes"@,
        "description"@ != "system_prompt"@,
        "description"@ != "post_history_instructions"@,
        "description"@ != "alternate_greetings"@,
        "description"@ != "tags"@,
        "description"@ != "creator"@,
        "description"@ != "character_version"@,
        "description"@ != "extensions"@,
        "description"@ != "character_book"@,
        "personality"@ != "scenario"@,
        "personality"@ != "first_mes"@,
        "personality"@ != "mes_example"@,
        "personality"@ != "creator_notes"@,
        "personality"@ != "system_prompt"@,
        "personality"@ != "post_history_instructions"@,
        "personality"@ != "alternate_greetings"@,
        "personality"@ != "tags"@,
        "personality"@ != "creator"@,
        "personality"@ != "character_version"@,
        "personality"@ != "extensions"@,
        "personality"@ != "character_book"@,
        "scenario"@ != "first_mes"@,
        "scenario"@ != "mes_example"@,
        "scenario"@ != "creator_notes"@,
        "scenario"@ != "system_prompt"@,
        "scenario"@ != "post_history_instructions"@,
        "scenario"@ != "alternate_greetings"@,
        "scenario"@ != "tags"@,
        "scenario"@ != "creator"@,
        "scenario"@ != "character_version"@,
        "scenario"@ != "extensions"@,
        "scenario"@ != "character_book"@,
        "first_mes"@ != "mes_example"@,
        "first_mes"@ != "creator_notes"@,
        "first_mes"@ != "system_prompt"@,
        "first_mes"@ != "post_history_instructions"@,
        "first_mes"@ != "alternate_greetings"@,
        "first_mes"@ != "tags"@,
        "first_mes"@ != "creator"@,
        "first_mes"@ != "character_version"@,
        "first_mes"@ != "extensions"@,
        "first_mes"@ != "character_book"@,
        "mes_example"@ != "creator_notes"@,
        "mes_example"@ != "system_prompt"@,
        "mes_example"@ != "post_history_instructions"@,
        "mes_example"@ != "alternate_greetings"@,
        "mes_example"@ != "tags"@,
        "mes_example"@ != "creator"@,
        "mes_example"@ != "character_version"@,
        "mes_example"@ != "extensions"@,
        "mes_example"@ != "character_book"@,
        "creator_notes"@ != "system_prompt"@,
        "creator_notes"@ != "post_history_instructions"@,
        "creator_notes"@ != "alternate_greetings"@,
        "creator_notes"@ != "tags"@,
        "creator_notes"@ != "creator"@,
        "creator_notes"@ != "character_version"@,
        "creator_notes"@ != "extensions"@,
        "creator_notes"@ != "character_book"@,
        "system_prompt"@ != "post_history_instructions"@,
        "system_prompt"@ != "alternate_greetings"@,
        "system_prompt"@ != "tags"@,
        "system_prompt"@ != "creator"@,
        "system_prompt"@ != "character_version"@,
        "system_prompt"@ != "extensions"@,
        "system_prompt"@ != "character_book"@,
        "post_history_instructions"@ != "alternate_greetings"@,
        "post_history_instructions"@ != "tags"@,
        "post_history_instructions"@ != "creator"@,
        "post_history_instructions"@ != "character_version"@,
        "post_history_instructions"@ != "extensions"@,
        "post_history_instructions"@ != "character_book"@,
        "alternate_greetings"@ != "tags"@,
        "alternate_greetings"@ != "creator"@,
        "alternate_greetings"@ != "character_version"@,
        "alternate_greetings"@ != "extensions"@,
        "alternate_greetings"@ != "character_book"@,
        "tags"@ != "creator"@,
        "tags"@ != "character_version"@,
        "tags"@ != "extensions"@,
        "tags"@ != "character_book"@,
        "creator"@ != "character_version"@,
        "creator"@ != "extensions"@,
        "creator"@ != "character_book"@,
        "character_version"@ != "extensions"@,
        "character_version"@ != "character_book"@,
        "extensions"@ != "character_book"@,
        "spec"@ != "spec_version"@,
        "spec"@ != "data"@,
        "spec_version"@ != "data"@,
{
    reveal_strlit("name");
    reveal_strlit("description");
    reveal_strlit("personality");
    reveal_strlit("scenario");
    reveal_strlit("first_mes");
    reveal_strlit("mes_example");
    reveal_strlit("creator_notes");
    reveal_strlit("system_prompt");
    reveal_strlit("post_history_instructions");
    reveal_strlit("alternate_greetings");
    reveal_strlit("tags");
    reveal_strlit("creator");
    reveal_strlit("character_version");
    reveal_strlit("extensions");
    reveal_strlit("character_book");
    reveal_strlit("spec");
    reveal_strlit("spec_version");
    reveal_strlit("data");
    assert("name"@[0] != "description"@[0]);
    assert("name"@[0] != "personality"@[0]);
    assert("name"@[0] != "scenario"@[0]);
    assert("name"@[0] != "first_mes"@[0]);
    assert("name"@[0] != "mes_example"@[0]);
    assert("name"@[0] != "creator_notes"@[0]);
    assert("name"@[0] != "system_prompt"@[0]);
    assert("name"@[0] != "post_history_instructions"@[0]);
    assert("name"@[0] != "alternate_greetings"@[0]);
    assert("name"@[0] != "tags"@[0]);
    assert("name"@[0] != "creator"@[0]);
    assert("name"@[0] != "character_version"@[0]);
    assert("name"@[0] != "extensions"@[0]);
    assert("name"@[0] != "character_book"@[0]);
    assert("description"@[0] != "personality"@[0]);
    assert("description"@[0] != "scenario"@[0]);
    assert("description"@[0] != "first_mes"@[0]);
    assert("description"@[0] != "mes_example"@[0]);
    assert("description"@[0] != "creator_notes"@[0]);
    assert("description"@[0] != "system_prompt"@[0]);
    assert("description"@[0] != "post_history_instructions"@[0]);
    assert("description"@[0] != "alternate_greetings"@[0]);
    assert("description"@[0] != "tags"@[0]);
    assert("description"@[0] != "creator"@[0]);
    assert("description"@[0] != "character_version"@[0]);
    assert("description"@[0] != "extensions"@[0]);
    assert("description"@[0] != "character_book"@[0]);
    assert("personality"@[0] != "scenario"@[0]);
    assert("personality"@[0] != "first_mes"@[0]);
    assert("personality"@[0] != "mes_example"@[0]);
    assert("personality"@[0] != "creator_notes"@[0]);
    assert("personality"@[0] != "system_prompt"@[0]);
    assert("personality"@[1] != "post_history_instructions"@[1]);
    assert("personality"@[0] != "alternate_greetings"@[0]);
    assert("personality"@[0] != "tags"@[0]);
    assert("personality"@[0] != "creator"@[0]);
    assert("personality"@[0] != "character_version"@[0]);
    assert("personality"@[0] != "extensions"@[0]);
    assert("personality"@[0] != "character_book"@[0]);
    assert("scenario"@[0] != "first_mes"@[0]);
    assert("scenario"@[0] != "mes_example"@[0]);
    assert("scenario"@[0] != "creator_notes"@[0]);
    assert("scenario"@[1] != "system_prompt"@[1]);
    assert("scenario"@[0] != "post_history_instructions"@[0]);
    assert("scenario"@[0] != "alternate_greetings"@[0]);
    assert("scenario"@[0] != "tags"@[0]);
    assert("scenario"@[0] != "creator"@[0]);
    assert("scenario"@[0] != "character_version"@[0]);
    assert("scenario"@[0] != "extensions"@[0]);
    assert("scenario"@[0] != "character_book"@[0]);
    assert("first_mes"@[0] != "mes_example"@[0]);
    assert("first_mes"@[0] != "creator_notes"@[0]);
    assert("first_mes"@[0] != "system_prompt"@[0]);
    assert("first_mes"@[0] != "post_history_instructions"@[0]);
    assert("first_mes"@[0] != "alternate_greetings"@[0]);
    assert("first_mes"@[0] != "tags"@[0]);
    assert("first_mes"@[0] != "creator"@[0]);
    assert("first_mes"@[0] != "character_version"@[0]);
    assert("first_mes"@[0] != "extensions"@[0]);
    assert("first_mes"@[0] != "character_book"@[0]);
    assert("mes_example"@[0] != "creator_notes"@[0]);
    assert("mes_example"@[0] != "system_prompt"@[0]);
    assert("mes_example"@[0] != "post_history_instructions"@[0]);
    assert("mes_example"@[0] != "alternate_greetings"@[0]);
    assert("mes_example"@[0] != "tags"@[0]);
    assert("mes_example"@[0] != "creator"@[0]);
    assert("mes_example"@[0] != "character_version"@[0]);
    assert("mes_example"@[0] != "extensions"@[0]);
    assert("mes_example"@[0] != "character_book"@[0]);
    assert("creator_notes"@[0] != "system_prompt"@[0]);
    assert("creator_notes"@[0] != "post_history_instructions"@[0]);
    assert("creator_notes"@[0] != "alternate_greetings"@[0]);
    assert("creator_notes"@[0] != "tags"@[0]);
    assert("creator_notes"@.len() != "creator"@.len());
    assert("creator_notes"@[1] != "character_version"@[1]);
    assert("creator_notes"@[0] != "extensions"@[0]);
    assert("creator_notes"@[1] != "character_book"@[1]);
    assert("system_prompt"@[0] != "post_history_instructions"@[0]);
    assert("system_prompt"@[0] != "alternate_greetings"@[0]);
    assert("system_prompt"@[0] != "tags"@[0]);
    assert("system_prompt"@[0] != "creator"@[0]);
    assert("system_prompt"@[0] != "character_version"@[0]);
    assert("system_prompt"@[0] != "extensions"@[0]);
    assert("system_prompt"@[0] != "character_book"@[0]);
    assert("post_history_instructions"@[0] != "alternate_greetings"@[0]);
    assert("post_history_instructions"@[0] != "tags"@[0]);
    assert("post_history_instructions"@[0] != "creator"@[0]);
    assert("post_history_instructions"@[0] != "character_version"@[0]);
    assert("post_history_instructions"@[0] != "extensions"@[0]);
    assert("post_history_instructions"@[0] != "character_book"@[0]);
    assert("alternate_greetings"@[0] != "tags"@[0]);
    assert("alternate_greetings"@[0] != "creator"@[0]);
    assert("alternate_greetings"@[0] != "character_version"@[0]);
    assert("alternate_greetings"@[0] != "extensions"@[0]);
    assert("alternate_greetings"@[0] != "character_book"@[0]);
    assert("tags"@[0] != "creator"@[0]);
    assert("tags"@[0] != "character_version"@[0]);
    assert("tags"@[0] != "extensions"@[0]);
    assert("tags"@[0] != "character_book"@[0]);
    assert("creator"@[1] != "character_version"@[1]);
    assert("creator"@[0] != "extensions"@[0]);
    assert("creator"@[1] != "character_book"@[1]);
    assert("character_version"@[0] != "extensions"@[0]);
    assert("character_version"@[10] != "character_book"@[10]);
    assert("extensions"@[0] != "character_book"@[0]);
    assert("spec"@.len() != "spec_version"@.len());
    assert("spec"@[0] != "data"@[0]);
    assert("spec_version"@[0] != "data"@[0]);
}

/// The card document of a template.
#[verifier::rlimit(100)]
#[verifier::spinoff_prover]
pub fn export_value(t: &CharacterTemplate) -> (doc: JsonValue)
    ensures
        exported(*t, doc),
{
    proof {
        reveal_card_keys();
    }
    let (mut root, mut data, extensions) = match &t.compatibility.tavern_v2 {
        Some(c) => (distinct_copy(&c.top_level_unknown), distinct_copy(&c.data_unknown), distinct_copy(&c.extensions)),
        None => (Vec::new(), Vec::new(), Vec::new()),
    };
    let ghost root0 = root@;
    let ghost data0 = data@;
    proof {
        assert(keys_distinct(root0) && forall|k: Seq<char>| same_opt(obj_get(kept_top(*t), k), #[trigger] obj_get(root0, k)));
        assert(keys_distinct(data0) && forall|k: Seq<char>| same_opt(obj_get(kept_data(*t), k), #[trigger] obj_get(data0, k)));
        assert(keys_distinct(extensions@) && forall|k: Seq<char>|
            same_opt(obj_get(kept_extensions(*t), k), #[trigger] obj_get(extensions@, k)));
    }
    obj_set(&mut root, "spec", JsonValue::String(String::from_str("chara_card_v2")));
    let version = match &t.compatibility.tavern_v2 {
        Some(c) => c.spec_version.clone(),
        None => String::from_str("2.0"),
    };
    obj_set(&mut root, "spec_version", JsonValue::String(version));
    obj_set(&mut data, "name", string_value(&t.name));
    obj_set(&mut data, "description", string_value(&t.description));
    obj_set(&mut data, "personality", string_value(&t.personality));
    obj_set(&mut data, "scenario", string_value(&t.narration.scenario));
    obj_set(&mut data, "first_mes", string_value(&t.session.greeting));
    obj_set(&mut data, "mes_example", string_value(&t.narration.message_examples));
    obj_set(&mut data, "creator_notes", string_value(&t.metadata.creator_notes));
    obj_set(&mut data, "system_prompt", string_value(&t.narration.system_prompt));
    obj_set(&mut data, "post_history_instructions", string_value(&t.narration.post_history_instructions));
    obj_set(&mut data, "alternate_greetings", strings_value(&t.session.alternate_greetings));
    obj_set(&mut data, "tags", strings_value(&t.metadata.tags));
    obj_set(&mut data, "creator", string_value(&t.metadata.creator));
    obj_set(&mut data, "character_version", string_value(&t.metadata.character_version));
    obj_set(&mut data, "extensions", JsonValue::Object(extensions));
    match &t.narration.character_book {
        Some(book) => obj_set(&mut data, "character_book", copy_json(book)),
        None => obj_remove(&mut data, "character_book"),
    }
    proof {
        assert(has_string(data@, "name"@, t.name@));
        assert(has_string(data@, "description"@, t.description@));
        assert(has_string(data@, "personality"@, t.personality@));
        assert(has_string(data@, "scenario"@, t.narration.scenario@));
        assert(has_string(data@, "first_mes"@, t.session.greeting@));
        assert(has_string(data@, "mes_example"@, t.narration.message_examples@));
        assert(has_string(data@, "creator_notes"@, t.metadata.creator_notes@));
        assert(has_string(data@, "system_prompt"@, t.narration.system_prompt@));
        assert(has_string(data@, "post_history_instructions"@, t.narration.post_history_instructions@));
        assert(has_strings(data@, "alternate_greetings"@, crate::manager::names(t.session.alternate_greetings@)));
        assert(has_strings(data@, "tags"@, crate::manager::names(t.metadata.tags@)));
        assert(has_string(data@, "creator"@, t.metadata.creator@));
        assert(has_string(data@, "character_version"@, t.metadata.character_version@));
        assert forall|k: Seq<char>| !known_data_key(k) implies same_opt(obj_get(kept_data(*t), k), #[trigger] obj_get(data@, k)) by {
            assert(same_opt(obj_get(kept_data(*t), k), obj_get(data0, k)));
        }
    }
    let ghost data_final = data@;
    obj_set(&mut root, "data", JsonValue::Object(data));
    proof {
        assert forall|k: Seq<char>| !known_top_key(k) implies same_opt(obj_get(kept_top(*t), k), #[trigger] obj_get(root@, k)) by {
            assert(same_opt(obj_get(kept_top(*t), k), obj_get(root0, k)));
        }
        assert(data_exported(*t, data_final));
    }
    JsonValue::Object(root)
}

/// Refuses an encoded card over the card size bound.
pub fn bounded_card(encoded: Vec<u8>) -> (r: Result<Vec<u8>, TavernV2Error>)
    ensures
        encoded@.len() > MAX_TAVERN_CARD_BYTES ==> r matches Err(TavernV2Error::Card(CardError::InputTooLarge)),
        encoded@.len() <= MAX_TAVERN_CARD_BYTES ==> (r matches Ok(b) && b@ == encoded@),
{
    if encoded.len() > MAX_TAVERN_CARD_BYTES {
        Err(TavernV2Error::Card(CardError::InputTooLarge))
    } else {
        Ok(encoded)
    }
}

/// A template's name is valid, and so are its asset names, no two of them
/// equal after trimming.
pub open spec fn template_ok(t: CharacterTemplate) -> bool {
    &&& crate::charlib::name_ok(t.name@)
    &&& crate::charlib::asset_names_ok(asset_keys(t.assets.additional@))
}

/// Exports a template as Character Card V2 JSON: refused where the template
/// is not valid, else the pretty-printed card document with its kept fields,
/// refused where that exceeds the card size bound.
pub fn export_tavern_v2_json(template: &CharacterTemplate) -> (r: Result<Vec<u8>, TavernV2Error>)
    ensures
        !crate::charlib::name_ok(template.name@) ==> r matches Err(TavernV2Error::InvalidTemplate(CharacterTemplateError::InvalidName)),
        crate::charlib::name_ok(template.name@) && !template_ok(*template) ==> (r matches Err(
            TavernV2Error::InvalidTemplate(CharacterTemplateError::InvalidAssetName(a)),
        ) && crate::charlib::first_bad_asset(asset_keys(template.assets.additional@), a@)),
        template_ok(*template) ==> exists|doc: JsonValue|
            #[trigger] exported(*template, doc) && if json_pretty(doc).len() <= MAX_TAVERN_CARD_BYTES {
                r matches Ok(b) && b@ == json_pretty(doc)
            } else {
                r matches Err(TavernV2Error::Card(CardError::InputTooLarge))
            },
{
    if let Err(e) = template.validate() {
        return Err(TavernV2Error::InvalidTemplate(e));
    }
    let doc = export_value(template);
    match pretty_json(&doc) {
        Ok(encoded) => bounded_card(encoded),
        Err(message) => Err(TavernV2Error::InvalidJson(message)),
    }
}

proof fn lemma_get_keep_unknown(e: Seq<(String, JsonValue)>, data_level: bool, k: Seq<char>)
    requires
        !(if data_level {
            known_data_key(k)
        } else {
            known_top_key(k)
        }),
    ensures
        obj_get(keep_unknown(e, data_level), k) == obj_get(e, k),
    decreases e.len(),
{
    if e.len() > 0 {
        let init = e.drop_last();
        let x = e.last();
        lemma_get_keep_unknown(init, data_level, k);
        assert(e == init.push(x));
        lemma_get_push(init, x, k);
        if !(if data_level {
            known_data_key(x.0@)
        } else {
            known_top_key(x.0@)
        }) {
            lemma_get_push(keep_unknown(init, data_level), x, k);
        }
    }
}

/// The data entries of an exported card document.
pub open spec fn exported_data(doc: JsonValue) -> Seq<(String, JsonValue)> {
    match doc {
        JsonValue::Object(root) => match obj_get(root@, "data"@) {
            Some(JsonValue::Object(d)) => d@,
            _ => Seq::empty(),
        },
        _ => Seq::empty(),
    }
}

/// Exporting a template imported from a card gives back, unchanged, every
/// top-level and data entry the card format does not define, the card's
/// extensions and its character book.
pub proof fn lemma_card_round_trip_keeps_unknown(root: JsonValue, t: CharacterTemplate, doc: JsonValue)
    requires
        card_ok(root),
        card_read_as(root, t),
        exported(t, doc),
    ensures
        forall|k: Seq<char>| !known_top_key(k) ==> same_opt(obj_get(root->Object_0@, k), #[trigger] obj_get(doc->Object_0@, k)),
        forall|k: Seq<char>|
            !known_data_key(k) ==> same_opt(obj_get(card_data(root)->0, k), #[trigger] obj_get(exported_data(doc), k)),
        obj_get(exported_data(doc), "extensions"@) matches Some(JsonValue::Object(x)) && forall|k: Seq<char>|
            same_opt(obj_get(default_object(card_data(root)->0, "extensions"@)->0, k), #[trigger] obj_get(x@, k)),
        same_opt(obj_get(card_data(root)->0, "character_book"@), obj_get(exported_data(doc), "character_book"@)),
{
    assert forall|k: Seq<char>| !known_top_key(k) implies same_opt(obj_get(root->Object_0@, k), #[trigger] obj_get(doc->Object_0@, k)) by {
        lemma_get_keep_unknown(root->Object_0@, false, k);
    }
    assert forall|k: Seq<char>| !known_data_key(k) implies same_opt(
        obj_get(card_data(root)->0, k),
        #[trigger] obj_get(exported_data(doc), k),
    ) by {
        lemma_get_keep_unknown(card_data(root)->0, true, k);
    }
}

} // verus!
