//! The pseudorandom stream and the integer draws taken from it.

use rand::distributions::Distribution;
use rand::distributions::Uniform;
use rand_xoshiro::rand_core::SeedableRng;
use rand_xoshiro::Xoshiro256PlusPlus;
use vstd::prelude::*;

verus! {

/// The generator `rand_xoshiro::Xoshiro256PlusPlus`, carried as an opaque value.
#[verifier::external_type_specification]
#[verifier::external_body]
pub struct ExXoshiro256PlusPlus(rand_xoshiro::Xoshiro256PlusPlus);

/// The generator that `Xoshiro256PlusPlus::seed_from_u64` makes of `seed`.
/// That function expands the seed with SplitMix64 into the generator's four
/// state words, by integer arithmetic alone: the same seed gives the same
/// generator wherever it runs. The expansion itself is not written out here.
pub uninterp spec fn seeded_generator(seed: u64) -> Xoshiro256PlusPlus;

/// Calls `rand::distributions::Uniform::new(0, n)` and samples it once with
/// `rng`. `Uniform::new` panics unless its range is non-empty, hence `n > 0`;
/// the sample lies in the half-open range, so it is below `n`. Which value
/// below `n` comes back depends on the generator's state.
#[verifier::external_body]
pub(crate) fn uniform_below(rng: &mut Xoshiro256PlusPlus, n: usize) -> (k: usize)
    requires
        n > 0,
    ensures
        k < n,
{
    Uniform::new(0, n).sample(rng)
}

/// The generator of a run: the one that the 32-bit `seed`, widened, determines.
/// Two runs started from the same seed start from the same generator.
pub fn seeded(seed: u32) -> (rng: Xoshiro256PlusPlus)
    ensures
        rng == seeded_generator(seed as u64),
{
    seed_from_u64(seed as u64)
}

/// Calls `Xoshiro256PlusPlus::seed_from_u64`, which does not fail. The
/// generator that comes back is the one that the seed determines; nothing
/// else is claimed of it.
#[verifier::external_body]
fn seed_from_u64(seed: u64) -> (rng: Xoshiro256PlusPlus)
    ensures
        rng == seeded_generator(seed),
{
    Xoshiro256PlusPlus::seed_from_u64(seed)
}

} // verus!
