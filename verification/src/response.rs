//! Normalizing a venue response: the body parsed as JSON when it is
//! JSON, the raw text otherwise — a non-JSON body is never an error.

use vstd::prelude::*;

verus! {

#[verifier::external_type_specification]
#[verifier::external_body]
pub struct ExJsonValue(serde_json::Value);

/// Whether serde_json parses the text as a JSON document: a function of
/// the text alone.
pub uninterp spec fn json_parses(s: Seq<char>) -> bool;

/// Relies on `serde_json::from_str::<Value>`: whether it returns `Ok` is
/// decided by the text alone.
#[verifier::external_body]
fn try_parse_json(text: &str) -> (r: Option<serde_json::Value>)
    ensures
        r is Some <==> json_parses(text@),
{
    serde_json::from_str(text).ok()
}

/// A normalized response: the parsed JSON document, or the raw body text
/// when it is not JSON.
pub enum ApiResponse {
    Json(serde_json::Value),
    Text(String),
}

/// Normalize one response body: parse it as JSON; on failure hand back
/// the raw text unchanged instead of failing.
pub fn normalize_response(text: String) -> (r: ApiResponse)
    ensures
        json_parses(text@) <==> r is Json,
        !json_parses(text@) ==> (r matches ApiResponse::Text(t) && t@ == text@),
{
    match try_parse_json(text.as_str()) {
        Some(v) => ApiResponse::Json(v),
        None => ApiResponse::Text(text),
    }
}

} // verus!
