//! The boundary to JSON text: parsing raw bytes into the crate's own tree
//! is delegated to serde_json behind a small trusted surface.  What the
//! parser returns for a given text is named, not restated; everything
//! downstream of the name is verified.

use vstd::prelude::*;
use crate::json::{Json, JsonV, jview, jwf};
use crate::types::McpError;

verus! {

#[verifier::external_type_specification]
#[verifier::external_body]
pub struct ExValue(serde_json::Value);

/// The JSON document written in `s`: `Some` of its tree when `s` is valid
/// JSON text, `None` otherwise.  The tree a text denotes is a function of
/// the text alone.
pub uninterp spec fn json_doc_of(s: Seq<char>) -> Option<JsonV>;

/// Relies on serde_json::Value only as a carrier: each node becomes the
/// matching constructor of the crate's own tree, numbers by their decimal
/// rendering.  Nothing is assumed of this helper; the contract sits on
/// `parse_json_text`.
#[verifier::external_body]
fn json_of_value(v: &serde_json::Value) -> Json {
    match v {
        serde_json::Value::Null => Json::Null,
        serde_json::Value::Bool(b) => Json::Bool(*b),
        serde_json::Value::Number(n) => Json::Num(n.to_string()),
        serde_json::Value::String(s) => Json::Str(s.clone()),
        serde_json::Value::Array(a) => Json::Arr(a.iter().map(json_of_value).collect()),
        serde_json::Value::Object(o) => Json::Obj(
            o.iter().map(|(k, val)| (k.clone(), json_of_value(val))).collect(),
        ),
    }
}

/// Relies on serde_json::from_str: it accepts exactly the valid JSON
/// texts, it is deterministic in its input, and the maps it builds carry
/// each key once, so the converted tree is well formed.  The error text is
/// the parser's own message.
#[verifier::external_body]
fn parse_json_text(s: &str) -> (r: Result<Json, String>)
    ensures
        (r matches Ok(j) ==> json_doc_of(s@) == Some(jview(j)) && jwf(jview(j))),
        (r is Err <==> json_doc_of(s@) is None),
{
    match serde_json::from_str::<serde_json::Value>(s) {
        Ok(v) => Ok(json_of_value(&v)),
        Err(e) => Err(e.to_string()),
    }
}

/// Reads a JSON document into the crate's tree; text that does not parse
/// yields the JSON error with the parser's message.
pub fn parse_json_document(content: &str) -> (r: Result<Json, McpError>)
    ensures
        (r matches Ok(j) ==> json_doc_of(content@) == Some(j@) && jwf(j@)),
        (r is Err <==> json_doc_of(content@) is None),
        (r matches Err(e) ==> e is Json),
{
    match parse_json_text(content) {
        Ok(j) => Ok(j),
        Err(m) => Err(McpError::Json(m)),
    }
}

} // verus!
