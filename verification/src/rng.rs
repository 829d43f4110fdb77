//! The library's one source of randomness.
use vstd::prelude::*;

verus! {

/// Relies on `rand::random_range`: a sample from `lo..=hi` is uniform over
/// that range; nothing is assumed beyond the bounds, and two calls with the
/// same arguments may differ.
#[verifier::external_body]
pub(crate) fn random_in(lo: u64, hi: u64) -> (r: u64)
    requires
        lo <= hi,
    ensures
        lo <= r <= hi,
{
    rand::random_range(lo..=hi)
}

} // verus!
