//! JSON values that the library carries through without looking inside.
use vstd::prelude::*;

verus! {

/// `serde_json::Value`, held opaquely: the library keeps raw rows so that they can be
/// stored again exactly as they were received.
#[verifier::external_type_specification]
#[verifier::external_body]
pub struct ExValue(serde_json::Value);

} // verus!
