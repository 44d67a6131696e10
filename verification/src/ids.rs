//! Node identifiers.
//!
//! Every node of the session store carries a stable 128-bit identifier
//! assigned at creation.

use vstd::prelude::*;

verus! {

/// Relies on `uuid::Uuid::new_v4` and `Uuid::as_u128`: a fresh random
/// version-4 UUID as its 128-bit value.  The result is random; nothing is
/// assumed about it.
#[verifier::external_body]
pub fn new_node_id() -> u128 {
    uuid::Uuid::new_v4().as_u128()
}

} // verus!
