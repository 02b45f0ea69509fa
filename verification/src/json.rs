//! JSON documents as the library reads them: a plain tree of values parsed by
//! `serde_json`, with lookups whose results are specified over its view.
use vstd::prelude::*;

use crate::text::str_eq;

verus! {

/// A JSON value. Numbers are kept as the text that `serde_json` writes for them.
pub enum JsonValue {
    Null,
    Bool(bool),
    Number(String),
    Str(String),
    Array(Vec<JsonValue>),
    Object(Vec<(String, JsonValue)>),
}

/// The mathematical view of a JSON value.
pub enum Json {
    Null,
    Bool(bool),
    Number(Seq<char>),
    Str(Seq<char>),
    Array(Seq<Json>),
    Object(Seq<(Seq<char>, Json)>),
}

pub open spec fn json_view(v: JsonValue) -> Json
    decreases v,
{
    match v {
        JsonValue::Null => Json::Null,
        JsonValue::Bool(b) => Json::Bool(b),
        JsonValue::Number(n) => Json::Number(n@),
        JsonValue::Str(s) => Json::Str(s@),
        JsonValue::Array(items) => Json::Array(
            Seq::new(
                items@.len(),
                |i: int|
                    if 0 <= i < items@.len() {
                        json_view(items@[i])
                    } else {
                        Json::Null
                    },
            ),
        ),
        JsonValue::Object(entries) => Json::Object(
            Seq::new(
                entries@.len(),
                |i: int|
                    if 0 <= i < entries@.len() {
                        (entries@[i].0@, json_view(entries@[i].1))
                    } else {
                        (Seq::empty(), Json::Null)
                    },
            ),
        ),
    }
}

impl View for JsonValue {
    type V = Json;

    open spec fn view(&self) -> Json {
        json_view(*self)
    }
}

#[verifier::external_type_specification]
#[verifier::external_body]
pub struct ExSerdeJsonValue(serde_json::Value);

#[verifier::external_type_specification]
#[verifier::external_body]
pub struct ExSerdeJsonError(serde_json::Error);

/// The document that `serde_json::from_str::<serde_json::Value>` reads from
/// `text`, or `None` where it reports an error.
pub uninterp spec fn serde_json_from_str(text: Seq<char>) -> Option<Json>;

/// The document that `serde_json::from_slice::<serde_json::Value>` reads from
/// `bytes`, or `None` where it reports an error.
pub uninterp spec fn serde_json_from_slice(bytes: Seq<u8>) -> Option<Json>;

/// Converts a `serde_json::Value` into the library's `JsonValue`, variant for
/// variant: numbers become the text that `serde_json` writes for them, and
/// object entries keep the order in which `serde_json::Map` yields them.
///
/// Trusted: a conversion of an outside value, used only by the two parsing
/// wrappers below; it promises nothing by itself.
#[verifier::external_body]
fn json_value_from_serde(v: &serde_json::Value) -> JsonValue {
    match v {
        serde_json::Value::Null => JsonValue::Null,
        serde_json::Value::Bool(b) => JsonValue::Bool(*b),
        serde_json::Value::Number(n) => JsonValue::Number(n.to_string()),
        serde_json::Value::String(s) => JsonValue::Str(s.clone()),
        serde_json::Value::Array(a) => JsonValue::Array(a.iter().map(json_value_from_serde).collect()),
        serde_json::Value::Object(m) => JsonValue::Object(
            m.iter().map(|(k, x)| (k.clone(), json_value_from_serde(x))).collect(),
        ),
    }
}

/// Parses JSON text.
///
/// Trusted: calls `serde_json::from_str::<serde_json::Value>` and converts
/// the document with `json_value_from_serde`; the contract names the result
/// `serde_json_from_str(text@)` and claims nothing else of it.
#[verifier::external_body]
pub fn parse_json_text(text: &str) -> (r: Result<JsonValue, serde_json::Error>)
    ensures
        match r {
            Ok(v) => serde_json_from_str(text@) == Some(v@),
            Err(_) => serde_json_from_str(text@) is None,
        },
{
    match serde_json::from_str::<serde_json::Value>(text) {
        Ok(v) => Ok(json_value_from_serde(&v)),
        Err(e) => Err(e),
    }
}

/// Parses JSON bytes.
///
/// Trusted: calls `serde_json::from_slice::<serde_json::Value>` and converts
/// the document with `json_value_from_serde`; the contract names the result
/// `serde_json_from_slice(bytes@)` and claims nothing else of it.
#[verifier::external_body]
pub fn parse_json_bytes(bytes: &[u8]) -> (r: Result<JsonValue, serde_json::Error>)
    ensures
        match r {
            Ok(v) => serde_json_from_slice(bytes@) == Some(v@),
            Err(_) => serde_json_from_slice(bytes@) is None,
        },
{
    match serde_json::from_slice::<serde_json::Value>(bytes) {
        Ok(v) => Ok(json_value_from_serde(&v)),
        Err(e) => Err(e),
    }
}

/// The value of the first entry named `key`.
pub open spec fn entry_for(entries: Seq<(Seq<char>, Json)>, key: Seq<char>) -> Option<Json>
    decreases entries.len(),
{
    if entries.len() == 0 {
        None
    } else if entries[0].0 == key {
        Some(entries[0].1)
    } else {
        entry_for(entries.drop_first(), key)
    }
}

/// `value.get(key)`: the member `key` of an object; `None` for other values.
pub open spec fn json_field(v: Json, key: Seq<char>) -> Option<Json> {
    match v {
        Json::Object(entries) => entry_for(entries, key),
        _ => None,
    }
}

/// `value.as_str()`.
pub open spec fn json_as_str(v: Json) -> Option<Seq<char>> {
    match v {
        Json::Str(s) => Some(s),
        _ => None,
    }
}

/// `value.as_array()`.
pub open spec fn json_as_array(v: Json) -> Option<Seq<Json>> {
    match v {
        Json::Array(items) => Some(items),
        _ => None,
    }
}

/// The member `key` of an object (`serde_json::Value::get` with a string index).
pub fn field<'a>(v: &'a JsonValue, key: &str) -> (r: Option<&'a JsonValue>)
    ensures
        match r {
            Some(x) => json_field(v@, key@) == Some(x@),
            None => json_field(v@, key@) is None,
        },
{
    match v {
        JsonValue::Object(entries) => {
            let ghost ev = match v@ {
                Json::Object(e) => e,
                _ => Seq::empty(),
            };
            assert(ev.len() == entries@.len());
            assert(ev.skip(0) == ev);
            let mut i: usize = 0;
            while i < entries.len()
                invariant
                    i <= entries@.len(),
                    ev.len() == entries@.len(),
                    forall|j: int| 0 <= j < ev.len() ==> #[trigger] ev[j] == (entries@[j].0@, json_view(entries@[j].1)),
                    json_field(v@, key@) == entry_for(ev.skip(i as int), key@),
                decreases entries.len() - i,
            {
                let ghost rest = ev.skip(i as int);
                assert(rest[0] == ev[i as int]);
                assert(rest.drop_first() == ev.skip(i + 1));
                if str_eq(entries[i].0.as_str(), key) {
                    return Some(&entries[i].1);
                }
                i = i + 1;
            }
            None
        },
        _ => None,
    }
}

/// The text of a JSON string (`serde_json::Value::as_str`).
pub fn as_str(v: &JsonValue) -> (r: Option<&String>)
    ensures
        match r {
            Some(s) => json_as_str(v@) == Some(s@),
            None => json_as_str(v@) is None,
        },
{
    match v {
        JsonValue::Str(s) => Some(s),
        _ => None,
    }
}

/// The items of a JSON array (`serde_json::Value::as_array`).
pub fn as_array(v: &JsonValue) -> (r: Option<&Vec<JsonValue>>)
    ensures
        match r {
            Some(items) => json_as_array(v@) == Some(
                Seq::new(items@.len(), |i: int| json_view(items@[i])),
            ),
            None => json_as_array(v@) is None,
        },
{
    match v {
        JsonValue::Array(items) => {
            assert(json_as_array(v@).unwrap() == Seq::new(items@.len(), |i: int| json_view(items@[i])));
            Some(items)
        },
        _ => None,
    }
}

} // verus!
