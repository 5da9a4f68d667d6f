use vstd::prelude::*;

verus! {

/// Declares `serde_json::Value` so that ids, error data and results received
/// from the client can be carried through the library without being looked into.
#[verifier::external_type_specification]
#[verifier::external_body]
pub struct ExValue(serde_json::Value);

} // verus!
