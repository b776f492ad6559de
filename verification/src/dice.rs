//! The random source: a seeded generator from which every die of a game is
//! rolled and every event drawn.

use rand::rngs::StdRng;
use rand::{Rng, SeedableRng};
use vstd::prelude::*;

verus! {

/// The generator of the `rand` crate behind all rolls. Nothing of its inner
/// state is visible to the proofs.
#[verifier::external_type_specification]
#[verifier::external_body]
pub struct ExStdRng(StdRng);

/// `StdRng::seed_from_u64`: a generator made from a seed. Nothing is claimed
/// of it.
#[verifier::external_body]
pub(crate) fn seeded(seed: u64) -> (rng: StdRng) {
    StdRng::seed_from_u64(seed)
}

/// `Rng::gen_range` on `1..=6`: the generator moves on and hands out a
/// number of the range, bounds included.
#[verifier::external_body]
pub(crate) fn roll_die(rng: &mut StdRng) -> (die: u8)
    ensures
        1 <= die <= 6,
{
    rng.gen_range(1..=6)
}

/// `Rng::gen_range` on `0..len`: the generator moves on and hands out a
/// number below `len`. The range must not be empty, or the call panics.
#[verifier::external_body]
pub(crate) fn pick_index(rng: &mut StdRng, len: usize) -> (index: usize)
    requires
        len > 0,
    ensures
        index < len,
{
    rng.gen_range(0..len)
}

/// `Clone::clone` of the generator: a second generator that is a copy of
/// the first. The generator and all that it is made of derive their
/// `Clone`, or copy their contents word for word.
pub assume_specification[ <StdRng as Clone>::clone ](rng: &StdRng) -> (copy: StdRng)
    ensures
        copy == *rng,
;

} // verus!
