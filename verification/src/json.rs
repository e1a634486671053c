//! The encoding of a list of strings as one text, as the list columns of
//! the store hold it.

use vstd::prelude::*;

verus! {

/// The JSON text that `serde_json::to_string` writes for a list of strings.
pub uninterp spec fn list_encoding(items: Seq<Seq<char>>) -> Seq<char>;

/// The list of strings that `serde_json::from_str` reads from a text, or
/// nothing where it refuses the text.
pub uninterp spec fn list_decoding(text: Seq<char>) -> Option<Seq<Seq<char>>>;

/// The error of the `serde_json` crate, carried through as it is.
#[verifier::external_type_specification]
#[verifier::external_body]
pub struct ExJsonError(serde_json::Error);

/// Calls `serde_json::to_string` on a list of strings. Trusted: the text
/// depends on the list alone. The call succeeds, since serialization fails
/// only where a value refuses to be serialized or a map has a key that is
/// no string, and a list of strings has neither.
#[verifier::external_body]
fn to_json(items: &Vec<String>) -> (written: Result<String, serde_json::Error>)
    ensures
        written is Ok,
        written matches Ok(text) ==> text@ == list_encoding(items.deep_view()),
{
    serde_json::to_string(items)
}

/// Calls `serde_json::from_str` for a list of strings. Trusted: whether the
/// text is accepted, and the list read from it, depend on the text alone.
#[verifier::external_body]
fn from_json(text: &str) -> (read: Result<Vec<String>, serde_json::Error>)
    ensures
        match read {
            Ok(items) => list_decoding(text@) == Some(items.deep_view()),
            Err(_) => list_decoding(text@) is None,
        },
{
    serde_json::from_str(text)
}

/// Encodes a list of strings for a list column.
pub fn encode_list(items: &Vec<String>) -> (text: String)
    ensures
        text@ == list_encoding(items.deep_view()),
{
    match to_json(items) {
        Ok(text) => text,
        // A list of strings is always written: this arm is never taken.
        Err(_) => String::new(),
    }
}

/// Decodes a list column, where it holds the encoding of a list of strings.
pub fn decode_list(text: &str) -> (items: Option<Vec<String>>)
    ensures
        items.deep_view() == list_decoding(text@),
{
    match from_json(text) {
        Ok(items) => Some(items),
        Err(_) => None,
    }
}

} // verus!
