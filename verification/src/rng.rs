//! The randomness the simulation consumes: enemy spawn facing and the
//! direction-change countdown re-roll.

use vstd::prelude::*;
use rand::Rng;

verus! {

/// Relies on rand::Rng::gen_range over a half-open integer range on the
/// thread-local generator: the draw lies in `[lo, hi)`; nothing more is
/// assumed of it.
#[verifier::external_body]
pub(crate) fn roll_range(lo: i64, hi: i64) -> (r: i64)
    requires
        lo < hi,
    ensures
        lo <= r < hi,
{
    rand::thread_rng().gen_range(lo..hi)
}

/// Relies on rand::random for bool: a coin toss; nothing is assumed of the
/// outcome.
#[verifier::external_body]
pub(crate) fn coin() -> bool {
    rand::random::<bool>()
}

} // verus!
