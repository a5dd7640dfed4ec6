//! Reading the text members of a JSON document. The parsing is `serde_json`'s;
//! this module gives it a contract and nothing else.

use vstd::prelude::*;

verus! {

/// A parsed JSON document of `serde_json`.
#[verifier::external_type_specification]
#[verifier::external_body]
pub struct ExJsonValue(serde_json::Value);

/// The error with which `serde_json` turns a text down.
#[verifier::external_type_specification]
#[verifier::external_body]
pub struct ExJsonError(serde_json::Error);

/// The text members of a JSON value: for an object, its keys whose values are
/// strings, each with its string; for any other value, nothing.
pub uninterp spec fn json_text_fields(value: serde_json::Value) -> Map<Seq<char>, Seq<char>>;

/// The text members of the JSON document that `text` writes, and `None` where
/// `text` is no JSON document.
pub uninterp spec fn json_document(text: Seq<char>) -> Option<Map<Seq<char>, Seq<char>>>;

/// The text member `key` of a document, if it has one.
pub open spec fn text_field(fields: Map<Seq<char>, Seq<char>>, key: Seq<char>) -> Option<
    Seq<char>,
> {
    if fields.contains_key(key) {
        Some(fields[key])
    } else {
        None
    }
}

/// Trusted: `serde_json::from_str` at the type `serde_json::Value`. Whether it
/// accepts a text, and the value it gives, depend on the text alone: the
/// contract names the members of that value and claims no more.
#[verifier::external_body]
pub(crate) fn parse_json(text: &str) -> (r: Result<serde_json::Value, serde_json::Error>)
    ensures
        match r {
            Ok(value) => json_document(text@) == Some(json_text_fields(value)),
            Err(_) => json_document(text@) is None,
        },
{
    serde_json::from_str::<serde_json::Value>(text)
}

/// Trusted: `serde_json::Value::get` with a string index, and `Value::as_str`
/// on what it finds. `get` gives the member of an object under the key and
/// nothing for any other value; `as_str` gives the text of a string and
/// nothing for any other value.
#[verifier::external_body]
pub(crate) fn json_text_field(value: &serde_json::Value, key: &str) -> (r: Option<String>)
    ensures
        match r {
            Some(text) => text_field(json_text_fields(*value), key@) == Some(text@),
            None => text_field(json_text_fields(*value), key@) is None,
        },
{
    match value.get(key) {
        Some(member) => match member.as_str() {
            Some(text) => Some(text.to_owned()),
            None => None,
        },
        None => None,
    }
}

} // verus!
