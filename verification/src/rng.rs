//! The one place the core touches a source of randomness.

use vstd::prelude::*;

verus! {

/// Relies on `rand::Rng::gen_range` on `rand::thread_rng()`: it returns a
/// value drawn uniformly from the given range and panics only when the range
/// is empty, which the precondition rules out. Nothing beyond membership in
/// the range can be promised of a random draw.
#[verifier::external_body]
pub(crate) fn random_between(lo: usize, hi: usize) -> (r: usize)
    requires
        lo <= hi,
    ensures
        lo <= r <= hi,
{
    rand::Rng::gen_range(&mut rand::thread_rng(), lo..=hi)
}

} // verus!
