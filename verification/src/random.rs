//! The random number generators of the `rand` crate, as far as the library draws from them.
//!
//! Nothing here is proved: each contract states what `rand` documents of the call.

use rand::rngs::StdRng;
use rand::Rng;
use rand::SeedableRng;
use vstd::prelude::*;

verus! {

/// `rand::rngs::StdRng`, a seedable generator whose state Verus does not look into.
#[verifier::external_type_specification]
#[verifier::external_body]
pub struct ExStdRng(StdRng);

/// Calls `StdRng::seed_from_u64`, which builds a generator from the seed and always
/// returns. Nothing is claimed of the generator.
#[verifier::external_body]
pub(crate) fn seeded_rng(seed: u64) -> StdRng {
    StdRng::seed_from_u64(seed)
}

/// Calls `Rng::gen_range` on `0..bound` for a `usize`. The call panics on an empty range,
/// so the bound must be positive; the value it returns lies in the range.
#[verifier::external_body]
pub(crate) fn next_index(rng: &mut StdRng, bound: usize) -> (index: usize)
    requires
        bound > 0,
    ensures
        index < bound,
{
    rng.gen_range(0..bound)
}

/// Calls `Rng::gen_range` on `0..bound` for an `i32`. The call panics on an empty range,
/// so the bound must be positive; the value it returns lies in the range.
#[verifier::external_body]
pub(crate) fn next_reward(rng: &mut StdRng, bound: i32) -> (reward: i32)
    requires
        bound > 0,
    ensures
        0 <= reward < bound,
{
    rng.gen_range(0..bound)
}

/// Calls `Rng::gen` for a `u64`, which may return any value.
#[verifier::external_body]
pub(crate) fn next_seed(rng: &mut StdRng) -> u64 {
    rng.gen()
}

/// Calls `Rng::gen_range` on `0..bound` with the generator that `rand::thread_rng` hands
/// out. The call panics on an empty range, so the bound must be positive; the value it
/// returns lies in the range. `thread_rng` itself gives up only where the system has no
/// randomness to seed it with, which no argument can prevent.
#[verifier::external_body]
pub(crate) fn random_index(bound: usize) -> (index: usize)
    requires
        bound > 0,
    ensures
        index < bound,
{
    rand::thread_rng().gen_range(0..bound)
}

} // verus!
