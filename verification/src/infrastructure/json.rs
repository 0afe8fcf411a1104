//! The JSON that queue records are written in: what `serde_json` reads and
//! writes.

use vstd::prelude::*;

verus! {

/// A JSON document in memory.
#[verifier::external_type_specification]
#[verifier::external_body]
pub struct ExJsonValue(serde_json::Value);

/// The members of `document` whose values are strings, by name, when the
/// document is an object; no members when it is anything else.
pub uninterp spec fn string_members(document: serde_json::Value) -> Map<Seq<char>, Seq<char>>;

/// The string members of the JSON document that `text` spells; `None` when
/// `text` does not spell a JSON document.
pub uninterp spec fn parsed_members(text: Seq<char>) -> Option<Map<Seq<char>, Seq<char>>>;

/// `text` as JSON writes a string: between quotes, with what JSON cannot hold
/// as it is escaped.
pub uninterp spec fn json_string(text: Seq<char>) -> Seq<char>;

/// `serde_json::from_str` to a `serde_json::Value`. Reading the same text gives
/// the same document, and `None` when the text is not JSON.
#[verifier::external_body]
pub(crate) fn parse_document(text: &str) -> (document: Option<serde_json::Value>)
    ensures
        match document {
            Some(d) => parsed_members(text@) == Some(string_members(d)),
            None => parsed_members(text@) is None,
        },
{
    serde_json::from_str::<serde_json::Value>(text).ok()
}

/// `serde_json::Value::get` with a member's name: the value of that member
/// when the document is an object that has it and the value is a string.
#[verifier::external_body]
pub(crate) fn string_member(document: &serde_json::Value, name: &str) -> (value: Option<String>)
    ensures
        match value {
            Some(s) => string_members(*document).contains_key(name@) && string_members(
                *document,
            )[name@] == s@,
            None => !string_members(*document).contains_key(name@),
        },
{
    match document.get(name) {
        Some(serde_json::Value::String(s)) => Some(s.clone()),
        _ => None,
    }
}

/// `serde_json::to_string` of a string: the text as a JSON string. Writing the
/// same text gives the same JSON. It always succeeds: a string is written as
/// it comes, into memory, and neither can fail.
#[verifier::external_body]
pub(crate) fn quote(text: &str) -> (quoted: Option<String>)
    ensures
        quoted is Some,
        quoted matches Some(q) ==> q@ == json_string(text@),
{
    serde_json::to_string(text).ok()
}

} // verus!
