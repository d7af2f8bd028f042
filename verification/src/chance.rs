//! Chance: integers drawn from the thread's random number generator.

use rand::Rng;
use vstd::prelude::*;

verus! {

/// Draws an integer with `rand::Rng::gen_range` on `rand::thread_rng()`.
///
/// Taken on trust from that crate: for `low < high` the call returns, and
/// what it returns is at least `low` and less than `high`. Which of those
/// integers comes is left open, so two draws may differ.
#[verifier::external_body]
pub(crate) fn random_between(low: i64, high: i64) -> (r: i64)
    requires
        low < high,
    ensures
        low <= r < high,
{
    rand::thread_rng().gen_range(low, high)
}

} // verus!
