//! Numbers that nobody can foresee.

use vstd::prelude::*;

verus! {

/// Calls `rand::random` for a `u64`. Nothing is claimed of the number: it is
/// left to chance.
#[verifier::external_body]
pub(crate) fn random_number() -> (r: u64) {
    rand::random::<u64>()
}

} // verus!
