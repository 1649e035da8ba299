//! The one trusted bridge to the randomness source.

use vstd::prelude::*;

verus! {

/// Relies on rand::random_range (the thread-local generator): on a
/// non-empty range `0..bound` it returns a uniform sample from that
/// range, and panics only when the range is empty.
#[verifier::external_body]
pub(crate) fn random_cell(bound: usize) -> (r: usize)
    requires
        bound >= 1,
    ensures
        r < bound,
{
    rand::random_range(0..bound)
}

} // verus!
