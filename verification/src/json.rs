//! JSON documents as the gateway reads them. The documents are parsed by the
//! `serde_json` crate; this module holds what comes out as plain values.

use crate::text::{chars_equal, chars_of};
use vstd::prelude::*;

verus! {

/// The error of the JSON parser.
#[verifier::external_type_specification]
#[verifier::external_body]
pub struct ExJsonError(serde_json::Error);

/// A value of the JSON parser.
#[verifier::external_type_specification]
#[verifier::external_body]
pub struct ExJsonValue(serde_json::Value);

/// A JSON value. A number is held as the text that the parser writes for it;
/// the members of an object come in the parser's order, each key once.
#[derive(Debug)]
pub enum Json {
    Null,
    Bool(bool),
    Number(String),
    Text(String),
    List(Vec<Json>),
    Object(Vec<Member>),
}

/// One member of a JSON object.
#[derive(Debug)]
pub struct Member {
    pub key: String,
    pub value: Json,
}

/// What the parser makes of `text`: `None` where `text` is no JSON document.
pub uninterp spec fn json_parsed(text: Seq<char>) -> Option<Json>;

/// Turns a value of `serde_json` into one of the library, variant by variant:
/// a number by its `to_string`, the items of an array and the members of an
/// object in the order in which `serde_json` hands them out.
#[verifier::external_body]
fn json_of(value: &serde_json::Value) -> Json {
    match value {
        serde_json::Value::Null => Json::Null,
        serde_json::Value::Bool(b) => Json::Bool(*b),
        serde_json::Value::Number(n) => Json::Number(n.to_string()),
        serde_json::Value::String(s) => Json::Text(s.clone()),
        serde_json::Value::Array(items) => Json::List(items.iter().map(json_of).collect()),
        serde_json::Value::Object(members) => Json::Object(
            members.iter().map(|(k, v)| Member { key: k.clone(), value: json_of(v) }).collect(),
        ),
    }
}

/// Parses `text` with `serde_json::from_str` into a `serde_json::Value` and
/// turns it into a value of the library. The result is what `json_parsed`
/// names; the parser's error is handed on.
#[verifier::external_body]
pub(crate) fn read_json(text: &str) -> (read: Result<Json, serde_json::Error>)
    ensures
        match read {
            Ok(document) => json_parsed(text@) == Some(document),
            Err(_) => json_parsed(text@) is None,
        },
{
    serde_json::from_str::<serde_json::Value>(text).map(|value| json_of(&value))
}

/// The parser's error in words, as its `to_string` gives them.
#[verifier::external_body]
pub(crate) fn json_error_text(error: &serde_json::Error) -> String {
    error.to_string()
}

/// The value of the first member at or after `from` whose key is `key`.
pub open spec fn member_from(members: Seq<Member>, key: Seq<char>, from: int) -> Option<Json>
    decreases members.len() - from,
{
    if from < 0 || from >= members.len() {
        None
    } else if members[from].key@ == key {
        Some(members[from].value)
    } else {
        member_from(members, key, from + 1)
    }
}

/// The value that `value` holds under `key`: `None` unless `value` is an
/// object with such a member.
pub open spec fn member_of(value: Json, key: Seq<char>) -> Option<Json> {
    match value {
        Json::Object(members) => member_from(members@, key, 0),
        _ => None,
    }
}

/// Looks up the member `key` of `value`.
pub fn member<'a>(value: &'a Json, key: &str) -> (found: Option<&'a Json>)
    ensures
        match found {
            Some(v) => member_of(*value, key@) == Some(*v),
            None => member_of(*value, key@) is None,
        },
{
    match value {
        Json::Object(members) => {
            let wanted = chars_of(key);
            let mut i: usize = 0;
            while i < members.len()
                invariant
                    i <= members.len(),
                    wanted@ == key@,
                    member_of(*value, key@) == member_from(members@, key@, 0),
                    member_from(members@, key@, 0) == member_from(members@, key@, i as int),
                decreases members.len() - i,
            {
                if chars_equal(&chars_of(members[i].key.as_str()), &wanted) {
                    return Some(&members[i].value);
                }
                i = i + 1;
            }
            None
        },
        _ => None,
    }
}

} // verus!
