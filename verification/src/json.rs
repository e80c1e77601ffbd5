//! A plain model of JSON documents as the library reads them.
//!
//! Parsing is serde_json's: `parse_json_text` and `parse_json_bytes` call
//! `serde_json::from_str` / `serde_json::from_slice` into
//! `serde_json::Value` and convert the value, variant by variant, into
//! [`JsonValue`]. Lookups (`get`, `as_str`, `as_i64`, `as_u64`,
//! `as_array`) are the few-line behaviour of the same-named
//! `serde_json::Value` methods, written here and proved against their
//! specifications.

use vstd::prelude::*;
use crate::text::{chars_of, seq_eq};

verus! {

/// A JSON number, as the integer views serde_json offers of it:
/// `Number::as_i64` and `Number::as_u64` (both `None` for a float).
#[derive(Debug, Clone, Copy, PartialEq, Eq)]
pub struct JsonNumber {
    pub int64: Option<i64>,
    pub uint64: Option<u64>,
}

/// A JSON value. Object members keep the (unique) keys serde_json's map
/// produced, in its iteration order.
#[derive(Debug)]
pub enum JsonValue {
    Null,
    Bool(bool),
    Number(JsonNumber),
    Str(String),
    Array(Vec<JsonValue>),
    Object(Vec<(String, JsonValue)>),
}

/// The first member of `entries` whose key is `key`.
pub open spec fn object_lookup(entries: Seq<(String, JsonValue)>, key: Seq<char>) -> Option<
    JsonValue,
>
    decreases entries.len(),
{
    if entries.len() == 0 {
        None
    } else if entries[0].0@ == key {
        Some(entries[0].1)
    } else {
        object_lookup(entries.drop_first(), key)
    }
}

/// `Value::get(key)`: the member `key` of an object; `None` for any other value.
pub open spec fn json_get(v: JsonValue, key: Seq<char>) -> Option<JsonValue> {
    match v {
        JsonValue::Object(entries) => object_lookup(entries@, key),
        _ => None,
    }
}

/// `Value::as_str` applied to an optional value.
pub open spec fn json_str(v: Option<JsonValue>) -> Option<Seq<char>> {
    match v {
        Some(JsonValue::Str(s)) => Some(s@),
        _ => None,
    }
}

/// `Value::as_i64` applied to an optional value.
pub open spec fn json_i64(v: Option<JsonValue>) -> Option<i64> {
    match v {
        Some(JsonValue::Number(n)) => n.int64,
        _ => None,
    }
}

/// `Value::as_u64` applied to an optional value.
pub open spec fn json_u64(v: Option<JsonValue>) -> Option<u64> {
    match v {
        Some(JsonValue::Number(n)) => n.uint64,
        _ => None,
    }
}

/// The string member `key` of `v`, if there is one.
pub open spec fn json_field_str(v: JsonValue, key: Seq<char>) -> Option<Seq<char>> {
    json_str(json_get(v, key))
}

/// `Value::get` on an optional value (`and_then(|v| v.get(key))`).
pub open spec fn json_get_opt(v: Option<JsonValue>, key: Seq<char>) -> Option<JsonValue> {
    match v {
        Some(x) => json_get(x, key),
        None => None,
    }
}

/// A borrowed optional value, as a value.
pub open spec fn opt_val(v: Option<&JsonValue>) -> Option<JsonValue> {
    match v {
        Some(x) => Some(*x),
        None => None,
    }
}

/// `Value::get`.
pub fn get<'a>(v: &'a JsonValue, key: &str) -> (r: Option<&'a JsonValue>)
    ensures
        match r {
            Some(x) => json_get(*v, key@) == Some(*x),
            None => json_get(*v, key@) is None,
        },
{
    match v {
        JsonValue::Object(entries) => {
            let k = chars_of(key);
            let mut i: usize = 0;
            assert(entries@.skip(0) =~= entries@);
            while i < entries.len()
                invariant
                    i <= entries.len(),
                    k@ == key@,
                    json_get(*v, key@) == object_lookup(entries@, key@),
                    object_lookup(entries@, key@) == object_lookup(entries@.skip(i as int), key@),
                decreases entries.len() - i,
            {
                let name = chars_of(entries[i].0.as_str());
                assert(entries@.skip(i as int)[0] == entries@[i as int]);
                if seq_eq(&name, &k) {
                    assert(entries@.skip(i as int).len() > 0);
                    assert(entries@.skip(i as int)[0].0@ == key@);
                    assert(object_lookup(entries@.skip(i as int), key@) == Some(
                        entries@[i as int].1,
                    ));
                    assert(json_get(*v, key@) == Some(entries@[i as int].1));
                    return Some(&entries[i].1);
                }
                assert(entries@.skip(i as int).drop_first() =~= entries@.skip(i + 1));
                i = i + 1;
            }
            None
        },
        _ => None,
    }
}

/// `Value::get` on an optional value.
pub fn get_opt<'a>(v: Option<&'a JsonValue>, key: &str) -> (r: Option<&'a JsonValue>)
    ensures
        match r {
            Some(x) => json_get_opt(opt_val(v), key@) == Some(*x),
            None => json_get_opt(opt_val(v), key@) is None,
        },
{
    match v {
        Some(x) => get(x, key),
        None => None,
    }
}

/// `Value::as_str` on an optional value.
pub fn as_str<'a>(v: Option<&'a JsonValue>) -> (r: Option<&'a str>)
    ensures
        match r {
            Some(s) => json_str(opt_val(v)) == Some(s@),
            None => json_str(opt_val(v)) is None,
        },
{
    match v {
        Some(JsonValue::Str(s)) => Some(s.as_str()),
        _ => None,
    }
}

/// `Value::as_i64` on an optional value.
pub fn as_i64(v: Option<&JsonValue>) -> (r: Option<i64>)
    ensures
        r == json_i64(opt_val(v)),
{
    match v {
        Some(JsonValue::Number(n)) => n.int64,
        _ => None,
    }
}

/// `Value::as_u64` on an optional value.
pub fn as_u64(v: Option<&JsonValue>) -> (r: Option<u64>)
    ensures
        r == json_u64(opt_val(v)),
{
    match v {
        Some(JsonValue::Number(n)) => n.uint64,
        _ => None,
    }
}

/// `Value::as_array` on an optional value.
pub fn as_array<'a>(v: Option<&'a JsonValue>) -> (r: Option<&'a Vec<JsonValue>>)
    ensures
        match r {
            Some(items) => v matches Some(x) && *x == JsonValue::Array(*items),
            None => !(v matches Some(x) && x is Array),
        },
{
    match v {
        Some(JsonValue::Array(items)) => Some(items),
        _ => None,
    }
}

/// The keys of an object, in order; empty for any other value.
pub open spec fn json_keys(v: JsonValue) -> Seq<Seq<char>> {
    match v {
        JsonValue::Object(entries) => entries@.map_values(|m: (String, JsonValue)| m.0@),
        _ => seq![],
    }
}

/// In an object whose keys are distinct, each key finds its own member.
pub proof fn lemma_object_lookup_distinct(entries: Seq<(String, JsonValue)>)
    requires
        entries.map_values(|m: (String, JsonValue)| m.0@).no_duplicates(),
    ensures
        forall|i: int|
            0 <= i < entries.len() ==> object_lookup(entries, #[trigger] entries[i].0@) == Some(
                entries[i].1,
            ),
    decreases entries.len(),
{
    if entries.len() > 0 {
        let rest = entries.drop_first();
        assert(rest.map_values(|m: (String, JsonValue)| m.0@).no_duplicates()) by {
            let ks = entries.map_values(|m: (String, JsonValue)| m.0@);
            let rs = rest.map_values(|m: (String, JsonValue)| m.0@);
            assert forall|a: int, b: int| 0 <= a < rs.len() && 0 <= b < rs.len() && a != b implies rs[a]
                != rs[b] by {
                assert(rs[a] == ks[a + 1] && rs[b] == ks[b + 1]);
            }
        }
        lemma_object_lookup_distinct(rest);
        assert forall|i: int| 0 <= i < entries.len() implies object_lookup(
            entries,
            #[trigger] entries[i].0@,
        ) == Some(entries[i].1) by {
            if i > 0 {
                let ks = entries.map_values(|m: (String, JsonValue)| m.0@);
                assert(ks[0] != ks[i]);
                assert(rest[i - 1] == entries[i]);
            }
        }
    }
}

/// An object member `key: value`.
pub fn member(key: &str, value: JsonValue) -> (r: (String, JsonValue))
    ensures
        r.0@ == key@,
        r.1 == value,
{
    (key.to_owned(), value)
}

/// The JSON string `s`.
pub fn string_value(s: &str) -> (r: JsonValue)
    ensures
        r matches JsonValue::Str(x) && x@ == s@,
{
    JsonValue::Str(s.to_owned())
}

/// The value `serde_json::from_str::<serde_json::Value>` gives for a text
/// (`None` where it reports an error), in this crate's model.
pub uninterp spec fn json_text_value(text: Seq<char>) -> Option<JsonValue>;

/// The value `serde_json::from_slice::<serde_json::Value>` gives for bytes
/// (`None` where it reports an error), in this crate's model.
pub uninterp spec fn json_bytes_value(bytes: Seq<u8>) -> Option<JsonValue>;

#[verifier::external_type_specification]
#[verifier::external_body]
pub struct ExSerdeJsonValue(serde_json::Value);

/// Moves a `serde_json::Value` into the crate's model, one variant to one
/// variant; numbers keep `Number::as_i64` and `Number::as_u64`.
#[verifier::external_body]
fn from_serde(v: serde_json::Value) -> JsonValue {
    match v {
        serde_json::Value::Null => JsonValue::Null,
        serde_json::Value::Bool(b) => JsonValue::Bool(b),
        serde_json::Value::Number(n) => JsonValue::Number(
            JsonNumber { int64: n.as_i64(), uint64: n.as_u64() },
        ),
        serde_json::Value::String(s) => JsonValue::Str(s),
        serde_json::Value::Array(a) => JsonValue::Array(a.into_iter().map(from_serde).collect()),
        serde_json::Value::Object(m) => JsonValue::Object(
            m.into_iter().map(|(k, x)| (k, from_serde(x))).collect(),
        ),
    }
}

/// `serde_json::from_str::<serde_json::Value>`; the contract only names
/// the result: what it is for a given text is serde_json's JSON grammar.
#[verifier::external_body]
pub(crate) fn parse_json_text(text: &str) -> (r: Option<JsonValue>)
    ensures
        r == json_text_value(text@),
{
    serde_json::from_str::<serde_json::Value>(text).ok().map(from_serde)
}

/// `serde_json::from_slice::<serde_json::Value>`; the contract only names
/// the result: what it is for given bytes is serde_json's JSON grammar.
#[verifier::external_body]
pub(crate) fn parse_json_bytes(bytes: &[u8]) -> (r: Option<JsonValue>)
    ensures
        r == json_bytes_value(bytes@),
{
    serde_json::from_slice::<serde_json::Value>(bytes).ok().map(from_serde)
}

} // verus!
