//! Declarations of the raw JSON document types that a manifest carries.
//!
//! A package manifest holds, besides the fields this crate inspects, arbitrary
//! unrecognized fields. Those are kept as an opaque JSON object so that they
//! survive a round trip through the synchronizers untouched; nothing here ever
//! looks inside one.

use vstd::prelude::*;

verus! {

#[verifier::external_type_specification]
#[verifier::external_body]
pub struct ExJsonValue(serde_json::Value);

#[verifier::external_type_specification]
#[verifier::external_body]
#[verifier::reject_recursive_types(K)]
#[verifier::reject_recursive_types(V)]
pub struct ExJsonMap<K, V>(serde_json::Map<K, V>);

/// Relies on serde_json::Map::clone: the clone equals the map it was made
/// from.
#[verifier::external_body]
pub fn json_map_clone(
    m: &serde_json::Map<String, serde_json::Value>,
) -> (r: serde_json::Map<String, serde_json::Value>)
    ensures
        r == *m,
{
    m.clone()
}

} // verus!
