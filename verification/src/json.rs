//! JSON text, by way of serde_json.
use vstd::prelude::*;

verus! {

/// `serde_json::Error`, the error of the encoder, carried as it is.
#[verifier::external_type_specification]
#[verifier::external_body]
pub struct ExJsonError(serde_json::Error);

/// The JSON string literal that serde_json writes for a string, where it
/// writes one.
pub uninterp spec fn json_string(s: Seq<char>) -> Option<Seq<char>>;

/// `serde_json::to_string` on a string slice: whether it succeeds, and the
/// text it gives, depend on the characters of the slice alone.
#[verifier::external_body]
pub(crate) fn to_json_string(s: &str) -> (r: Result<String, serde_json::Error>)
    ensures
        match json_string(s@) {
            Some(t) => r matches Ok(q) && q@ == t,
            None => r is Err,
        },
{
    serde_json::to_string(s)
}

/// The message of a `serde_json::Error`, as its `Display` writes it.
#[verifier::external_body]
pub(crate) fn json_error_message(e: &serde_json::Error) -> String {
    format!("{}", e)
}

} // verus!
