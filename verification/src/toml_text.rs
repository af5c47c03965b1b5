//! TOML documents, read by the `toml` crate as JSON values.
use crate::json;
use crate::json::{JsonTree, JsonValue};
use crate::json_codec;
use vstd::prelude::*;

verus! {

/// The value that the `toml` crate reads from a document, if it is TOML.
pub uninterp spec fn document(s: Seq<char>) -> Option<JsonTree>;

/// `toml::from_str`, read into a `serde_json::Value`.
#[verifier::external_body]
fn read_document(s: &str) -> (r: Option<serde_json::Value>)
    ensures
        match document(s@) {
            Some(t) => r is Some && json_codec::value_tree(r->0) == t,
            None => r is None,
        },
{
    toml::from_str::<serde_json::Value>(s).ok()
}

/// Reads a TOML document; `None` if the text is not TOML.
pub fn parse_document(s: &str) -> (r: Option<JsonValue>)
    ensures
        match document(s@) {
            Some(t) => r is Some && r->0@ == t && json::well_formed(t),
            None => r is None,
        },
{
    match read_document(s) {
        Some(v) => Some(JsonValue::from_value(v)),
        None => None,
    }
}

} // verus!
