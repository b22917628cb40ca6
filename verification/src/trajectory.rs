//! Guarding an exported trajectory: an export with no steps never replaces
//! one that has some.

use vstd::prelude::*;
use crate::activity::JsonValue;
use crate::text::{chars_of, eq_str};

verus! {

/// The value of the first entry with `key` in an object's entries.
pub open spec fn entry_value(es: Seq<(String, JsonValue)>, key: Seq<char>) -> Option<JsonValue>
    decreases es.len(),
{
    if es.len() == 0 {
        None
    } else if es[0].0@ == key {
        Some(es[0].1)
    } else {
        entry_value(es.drop_first(), key)
    }
}

/// A trajectory document has steps when it is an object whose `steps`
/// value is a non-empty array.
pub open spec fn has_steps(doc: Option<JsonValue>) -> bool {
    match doc {
        Some(JsonValue::Object(es)) => match entry_value(es@, "steps"@) {
            Some(JsonValue::Array(items)) => items@.len() > 0,
            _ => false,
        },
        _ => false,
    }
}

pub open spec fn opt_doc(doc: Option<&JsonValue>) -> Option<JsonValue> {
    match doc {
        Some(d) => Some(*d),
        None => None,
    }
}

/// Whether an existing trajectory document holds steps; `doc` is the
/// parsed file, `None` when it could not be read or parsed.
pub fn trajectory_has_steps(doc: Option<&JsonValue>) -> (b: bool)
    ensures
        b == has_steps(opt_doc(doc)),
{
    let es = match doc {
        Some(JsonValue::Object(es)) => es,
        _ => {
            return false;
        },
    };
    let mut i: usize = 0;
    assert(es@.skip(0) =~= es@);
    while i < es.len()
        invariant
            i <= es@.len(),
            opt_doc(doc) == Some(JsonValue::Object(*es)),
            entry_value(es@, "steps"@) == entry_value(es@.skip(i as int), "steps"@),
        decreases es.len() - i,
    {
        assert(es@.skip(i as int).drop_first() =~= es@.skip(i + 1));
        let k = chars_of(es[i].0.as_str());
        if eq_str(&k, "steps") {
            return match &es[i].1 {
                JsonValue::Array(items) => items.len() > 0,
                _ => false,
            };
        }
        i += 1;
    }
    false
}

/// Whether a finished export is written: not when it has no steps and the
/// existing file already holds some.
pub fn should_write_trajectory(new_steps: u64, existing_has_steps: bool) -> (b: bool)
    ensures
        b == !(new_steps == 0 && existing_has_steps),
{
    !(new_steps == 0 && existing_has_steps)
}

/// What `serde_json::from_slice` reads from the bytes, as the library's
/// JSON value: `None` when they are not one JSON document.
pub uninterp spec fn json_document(bytes: Seq<u8>) -> Option<JsonValue>;

/// `serde_json::Value`, carried opaquely into the conversion below.
#[verifier::external_type_specification]
#[verifier::external_body]
pub struct ExSerdeJsonValue(serde_json::Value);

/// `serde_json::Value` turned into the library's JSON value, variant by
/// variant (numbers keep no value; object entries in the map's order).
#[verifier::external_body]
fn json_from_serde(v: &serde_json::Value) -> JsonValue {
    match v {
        serde_json::Value::Null => JsonValue::Null,
        serde_json::Value::Bool(b) => JsonValue::Bool(*b),
        serde_json::Value::Number(_) => JsonValue::Number,
        serde_json::Value::String(s) => JsonValue::String(s.clone()),
        serde_json::Value::Array(items) => JsonValue::Array(items.iter().map(json_from_serde).collect()),
        serde_json::Value::Object(m) => JsonValue::Object(m.iter().map(|(k, x)| (k.clone(), json_from_serde(x))).collect()),
    }
}

/// `serde_json::from_slice::<serde_json::Value>` on the bytes, converted to
/// the library's JSON value; `None` on a parse error. The result is named
/// by `json_document`; nothing more is stated of JSON parsing.
#[verifier::external_body]
fn parse_json_document(bytes: &[u8]) -> (r: Option<JsonValue>)
    ensures
        r == json_document(bytes@),
{
    serde_json::from_slice::<serde_json::Value>(bytes).ok().map(|v| json_from_serde(&v))
}

/// Whether the bytes of an existing trajectory file hold a document with
/// steps.
pub fn trajectory_bytes_have_steps(bytes: &[u8]) -> (b: bool)
    ensures
        b == has_steps(json_document(bytes@)),
{
    let doc = parse_json_document(bytes);
    match &doc {
        Some(d) => trajectory_has_steps(Some(d)),
        None => trajectory_has_steps(None),
    }
}

} // verus!
