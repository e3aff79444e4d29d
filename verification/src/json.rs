//! The few JSON operations the runner needs, supplied by `serde_json`.
use vstd::prelude::*;

verus! {

/// The text held by a JSON document that is a single string value; `None`
/// where the document is not valid JSON or is a value of another sort.
pub uninterp spec fn json_string_literal(text: Seq<char>) -> Option<Seq<char>>;

/// The compact JSON text of the value a JSON document holds; `None` where
/// the document is not valid JSON or the value cannot be written back.
pub uninterp spec fn json_compact(text: Seq<char>) -> Option<Seq<char>>;

/// The JSON string literal, quotes and escapes included, that encodes a text.
pub uninterp spec fn json_quoted(text: Seq<char>) -> Seq<char>;

/// The view of an optional string.
pub open spec fn opt_text(o: Option<String>) -> Option<Seq<char>> {
    match o {
        Some(s) => Some(s@),
        None => None,
    }
}

/// Reads a JSON document and hands back its text if it is a string value.
///
/// Trusted: calls `serde_json::from_str` at type `serde_json::Value` and
/// keeps the payload of the `String` variant. The parser is a function of its
/// input alone; its outcome is named `json_string_literal`.
#[verifier::external_body]
pub(crate) fn read_string_literal(x: &str) -> (r: Option<String>)
    ensures
        opt_text(r) == json_string_literal(x@),
{
    match serde_json::from_str::<serde_json::Value>(x) {
        Ok(serde_json::Value::String(s)) => Some(s),
        _ => None,
    }
}

/// Reads a JSON document and writes the value back in compact form.
///
/// Trusted: calls `serde_json::from_str` at type `serde_json::Value` and then
/// `serde_json::to_string` on the value; either failing gives `None`. Both
/// are functions of their input alone, and the value between them cannot
/// be held as plain data, so the outcome of the pair is named
/// `json_compact`.
#[verifier::external_body]
pub(crate) fn read_compact(x: &str) -> (r: Option<String>)
    ensures
        opt_text(r) == json_compact(x@),
{
    match serde_json::from_str::<serde_json::Value>(x) {
        Ok(v) => serde_json::to_string(&v).ok(),
        Err(_) => None,
    }
}

/// Encodes a text as a JSON string literal.
///
/// Trusted: calls `serde_json::to_string` on a `str`, which writes the text
/// between double quotes with JSON escapes; an error gives the empty text.
/// The outcome is named `json_quoted`.
#[verifier::external_body]
pub(crate) fn quote(s: &str) -> (r: String)
    ensures
        r@ == json_quoted(s@),
{
    match serde_json::to_string(s) {
        Ok(t) => t,
        Err(_) => String::new(),
    }
}

} // verus!
