//! The source of randomness behind a roulette draw.

use rand::Rng;
use vstd::prelude::*;

verus! {

/// `rand::Rng::gen_range` over `0..bound`, called on the generator that
/// `rand::thread_rng` returns. The contract is assumed, not proved, and
/// claims only what holds of every draw: the value lies below `bound`.
/// That the draws are spread evenly is `rand`'s promise and no part of it.
/// An empty range, which `gen_range` rejects with a panic, is left out.
#[verifier::external_body]
pub(crate) fn uniform_below(bound: u128) -> (draw: u128)
    requires
        bound > 0,
    ensures
        draw < bound,
{
    rand::thread_rng().gen_range(0..bound)
}

} // verus!
