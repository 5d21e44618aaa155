//! Random lattice coordinates.

use rand::Rng;
use vstd::prelude::*;

verus! {

/// Draws a coordinate between `low` and `high`, both included, by
/// `rand::Rng::gen_range` on the generator of `rand::thread_rng`.
///
/// Not proved: that the coordinate drawn lies in the range asked for. Which
/// coordinate of the range comes back is left open, and two calls may differ.
/// `gen_range` panics on an empty range, so the range must hold a coordinate.
#[verifier::external_body]
pub(crate) fn random_between(low: i64, high: i64) -> (drawn: i64)
    requires
        low <= high,
    ensures
        low <= drawn <= high,
{
    rand::thread_rng().gen_range(low..=high)
}

} // verus!
