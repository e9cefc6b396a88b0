//! A plain model of a JSON document, the parse that fills it, and the field
//! lookups that issue records are read through.
use vstd::prelude::*;
use crate::slug::matches_at;

verus! {

/// A JSON value as the issue logic reads it.
#[derive(Debug)]
pub enum JsonValue {
    Null,
    Bool(bool),
    /// A number; it holds the value where the number is an integer that fits
    /// in an `i64`, and `None` for fractions and larger integers.
    Number(Option<i64>),
    Text(String),
    Array(Vec<JsonValue>),
    /// The members of an object, each key at most once.
    Object(Vec<(String, JsonValue)>),
}

#[verifier::external_type_specification]
#[verifier::external_body]
pub struct ExJsonDocument(serde_json::Value);

/// What serde_json makes of `text` as a `serde_json::Value`, in this model;
/// `None` where the text is not a JSON document.
pub uninterp spec fn json_parse(text: Seq<char>) -> Option<JsonValue>;

/// Moves a parsed `serde_json::Value` into the model, variant by variant.
#[verifier::external_body]
fn from_document(v: serde_json::Value) -> JsonValue {
    match v {
        serde_json::Value::Null => JsonValue::Null,
        serde_json::Value::Bool(b) => JsonValue::Bool(b),
        serde_json::Value::Number(n) => JsonValue::Number(n.as_i64()),
        serde_json::Value::String(s) => JsonValue::Text(s),
        serde_json::Value::Array(a) => JsonValue::Array(a.into_iter().map(from_document).collect()),
        serde_json::Value::Object(o) => JsonValue::Object(
            o.into_iter().map(|(k, x)| (k, from_document(x))).collect(),
        ),
    }
}

/// Relies on serde_json::from_str into a serde_json::Value: the document the
/// text holds, or an error for text that is not JSON.
#[verifier::external_body]
fn parse_document(text: &str) -> (r: Option<JsonValue>)
    ensures
        r == json_parse(text@),
{
    serde_json::from_str::<serde_json::Value>(text).ok().map(from_document)
}

/// Parses `text` as a JSON document.
pub fn parse_json(text: &str) -> (r: Option<JsonValue>)
    ensures
        r == json_parse(text@),
{
    parse_document(text)
}

/// The value under `key` among the members of an object: the first member
/// whose key is `key`.
pub open spec fn member(members: Seq<(String, JsonValue)>, key: Seq<char>) -> Option<JsonValue>
    decreases members.len(),
{
    if members.len() == 0 {
        None
    } else if members[0].0@ == key {
        Some(members[0].1)
    } else {
        member(members.drop_first(), key)
    }
}

/// The value under `key` where `v` is an object that has that key.
pub open spec fn field_of(v: JsonValue, key: Seq<char>) -> Option<JsonValue> {
    match v {
        JsonValue::Object(members) => member(members@, key),
        _ => None,
    }
}

/// The integer under `key`, where there is one that fits in an `i64`.
pub open spec fn int_field(v: JsonValue, key: Seq<char>) -> Option<i64> {
    match field_of(v, key) {
        Some(JsonValue::Number(Some(n))) => Some(n),
        _ => None,
    }
}

/// The string under `key`, where there is one.
pub open spec fn text_field(v: JsonValue, key: Seq<char>) -> Option<Seq<char>> {
    match field_of(v, key) {
        Some(JsonValue::Text(s)) => Some(s@),
        _ => None,
    }
}

/// Checks whether two strings hold the same characters.
pub fn same_text(a: &str, b: &str) -> (r: bool)
    ensures
        r == (a@ == b@),
{
    if a.unicode_len() != b.unicode_len() {
        return false;
    }
    let r = matches_at(a, b, 0);
    proof {
        if r {
            assert(a@ =~= a@.subrange(0, b@.len() as int));
        } else {
            assert(a@.subrange(0, b@.len() as int) =~= a@);
        }
    }
    r
}

/// Looks up the value under `key` in `v`, where `v` is an object.
pub fn get_field<'a>(v: &'a JsonValue, key: &str) -> (r: Option<&'a JsonValue>)
    ensures
        match r {
            Some(x) => field_of(*v, key@) == Some(*x),
            None => field_of(*v, key@) is None,
        },
{
    match v {
        JsonValue::Object(members) => {
            let mut i: usize = 0;
            assert(members@.subrange(0, members@.len() as int) =~= members@);
            while i < members.len()
                invariant
                    i <= members@.len(),
                    field_of(*v, key@) == member(members@, key@),
                    member(members@, key@) == member(members@.subrange(i as int, members@.len() as int), key@),
                decreases members@.len() - i,
            {
                let ghost rest = members@.subrange(i as int, members@.len() as int);
                assert(rest.drop_first() =~= members@.subrange(i + 1, members@.len() as int));
                assert(rest[0] == members@[i as int]);
                if same_text(members[i].0.as_str(), key) {
                    assert(member(rest, key@) == Some(members@[i as int].1));
                    return Some(&members[i].1);
                }
                i = i + 1;
            }
            None
        },
        _ => None,
    }
}

/// Reads the integer under `key`, where there is one that fits in an `i64`.
pub fn get_int(v: &JsonValue, key: &str) -> (r: Option<i64>)
    ensures
        r == int_field(*v, key@),
{
    match get_field(v, key) {
        Some(JsonValue::Number(Some(n))) => Some(*n),
        _ => None,
    }
}

/// Reads the string under `key`, where there is one.
pub fn get_text<'a>(v: &'a JsonValue, key: &str) -> (r: Option<&'a String>)
    ensures
        match r {
            Some(s) => text_field(*v, key@) == Some(s@),
            None => text_field(*v, key@) is None,
        },
{
    match get_field(v, key) {
        Some(JsonValue::Text(s)) => Some(s),
        _ => None,
    }
}

} // verus!
