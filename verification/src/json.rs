//! JSON documents, as far as the protocol reads them before their type is
//! known: their members that are strings.

use vstd::prelude::*;
use vstd::string::*;
use vstd::utf8::*;

verus! {

/// A JSON value of `serde_json`.
#[verifier::external_type_specification]
#[verifier::external_body]
pub struct ExValue(serde_json::Value);

/// An error of `serde_json`.
#[verifier::external_type_specification]
#[verifier::external_body]
pub struct ExJsonError(serde_json::Error);

/// What is wrong with bytes that are not UTF-8.
#[verifier::external_type_specification]
#[verifier::external_body]
pub struct ExUtf8Error(core::str::Utf8Error);

/// The members of a JSON object whose values are strings, by their keys. A
/// value that is no object has none.
pub uninterp spec fn json_strings(v: serde_json::Value) -> Map<Seq<char>, Seq<char>>;

/// The members that are strings of the JSON value that a text denotes, if it
/// denotes one.
pub uninterp spec fn json_document(text: Seq<char>) -> Option<Map<Seq<char>, Seq<char>>>;

/// `core::str::from_utf8` succeeds on valid UTF-8 and on nothing else, and
/// gives back the same bytes as a string.
pub assume_specification[ core::str::from_utf8 ](v: &[u8]) -> (r: Result<
    &str,
    core::str::Utf8Error,
>)
    ensures
        r is Ok <==> valid_utf8(v@),
        r matches Ok(s) ==> s.spec_bytes() == v@,
;

/// `serde_json::from_str`, for any JSON value: whether it succeeds and which
/// members it reads depends on the text alone. Which texts are JSON is left
/// unsaid.
#[verifier::external_body]
pub(crate) fn parse_json(text: &str) -> (r: Result<serde_json::Value, serde_json::Error>)
    ensures
        json_document(text@) == (match r {
            Ok(v) => Some(json_strings(v)),
            Err(_) => None,
        }),
{
    serde_json::from_str::<serde_json::Value>(text)
}

/// `serde_json::Value::get`: the string at `key`, if the value is an object
/// with that member and the member is a string.
#[verifier::external_body]
pub(crate) fn string_member(v: &serde_json::Value, key: &str) -> (r: Option<String>)
    ensures
        match r {
            Some(s) => json_strings(*v).contains_key(key@) && json_strings(*v)[key@] == s@,
            None => !json_strings(*v).contains_key(key@),
        },
{
    match v.get(key) {
        Some(serde_json::Value::String(s)) => Some(s.clone()),
        _ => None,
    }
}

} // verus!
