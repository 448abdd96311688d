//! JSON values carried through the library unchanged.

use vstd::prelude::*;

verus! {

/// `serde_json::Value`: opaque JSON data that the library stores and forwards but
/// never inspects.
#[verifier::external_type_specification]
#[verifier::external_body]
pub struct ExJsonValue(serde_json::Value);

/// `<serde_json::Value as Clone>::clone`. Claims that the copy is the same value:
/// `Value` is plain data (null, bool, number, string, array, object) and its derived
/// `clone` copies it structurally.
pub assume_specification[ <serde_json::Value as Clone>::clone ](v: &serde_json::Value) -> (r:
    serde_json::Value)
    ensures
        r == *v,
;

/// `serde_json::Value::Null`. Nothing is stated of the value: the library only forwards it.
#[verifier::external_body]
pub(crate) fn json_null() -> serde_json::Value {
    serde_json::Value::Null
}

/// The JSON document that `bytes` parse to, if they are valid JSON text.
pub uninterp spec fn parsed_json(bytes: Seq<u8>) -> Option<serde_json::Value>;

/// `serde_json::from_slice::<Value>`, its error mapped to `None`. The contract names
/// the result (`parsed_json`) and states nothing more of it.
#[verifier::external_body]
fn json_from_slice(bytes: &[u8]) -> (r: Option<serde_json::Value>)
    ensures
        r == parsed_json(bytes@),
{
    serde_json::from_slice::<serde_json::Value>(bytes).ok()
}

/// The body of an API request as JSON: none for an empty body, otherwise the parsed
/// document, or none when the body is not valid JSON.
pub fn api_body_json(body: &[u8]) -> (r: Option<serde_json::Value>)
    ensures
        body@.len() == 0 ==> r is None,
        body@.len() > 0 ==> r == parsed_json(body@),
{
    if body.len() == 0 {
        None
    } else {
        json_from_slice(body)
    }
}

} // verus!
