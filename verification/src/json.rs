//! Re-indenting a JSON document, as `serde_json` prints it.
use vstd::prelude::*;

verus! {

#[verifier::external_type_specification]
#[verifier::external_body]
pub struct ExJsonError(serde_json::Error);

/// Whether `serde_json` reads `text` as one JSON document
/// (`serde_json::from_str::<serde_json::Value>` succeeds).
pub uninterp spec fn json_text_valid(text: Seq<char>) -> bool;

/// What `serde_json::to_string_pretty` prints for the value that
/// `serde_json::from_str::<serde_json::Value>` reads from `text`.
pub uninterp spec fn json_reindented(text: Seq<char>) -> Seq<char>;

/// `serde_json::from_str::<serde_json::Value>` followed by
/// `serde_json::to_string_pretty` on the value read.
///
/// Reading succeeds exactly for a JSON document (`json_text_valid`).
/// Printing a `Value` back cannot fail: serde_json's documentation of
/// `to_string_pretty` names only a failing `Serialize` impl or a map with
/// non-string keys, and a `Value` has neither. The printed text is named
/// `json_reindented`; nothing is stated of its characters.
#[verifier::external_body]
fn reindent_json(text: &str) -> (r: Result<String, serde_json::Error>)
    ensures
        r is Ok <==> json_text_valid(text@),
        r matches Ok(s) ==> s@ == json_reindented(text@),
{
    match serde_json::from_str::<serde_json::Value>(text) {
        Ok(v) => serde_json::to_string_pretty(&v),
        Err(e) => Err(e),
    }
}

/// Why a document could not be re-indented.
#[derive(Debug, PartialEq, Eq)]
pub enum JsonFormatError {
    /// The text is not a JSON document.
    Invalid,
}

/// `contents`, read as JSON and printed again, indented by two spaces.
///
/// A JSON document always gives its re-indented text; any other text gives
/// `Invalid`.
pub fn pretty_json(contents: &str) -> (r: Result<String, JsonFormatError>)
    ensures
        json_text_valid(contents@) ==> (r matches Ok(s) && s@ == json_reindented(contents@)),
        !json_text_valid(contents@) ==> r == Err::<String, JsonFormatError>(JsonFormatError::Invalid),
{
    match reindent_json(contents) {
        Ok(s) => Ok(s),
        Err(_) => Err(JsonFormatError::Invalid),
    }
}

} // verus!
