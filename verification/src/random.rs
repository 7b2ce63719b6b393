//! The source of random numbers for the first placement of the particles.

use vstd::prelude::*;
use rand::rngs::StdRng;
use rand::Rng;
use rand::SeedableRng;

verus! {

/// `StdRng` of the crate `rand`: a generator of random numbers. The library
/// only hands it on.
#[verifier::external_type_specification]
#[verifier::external_body]
pub struct ExStdRng(StdRng);

/// `StdRng::seed_from_u64` of the crate `rand`: a generator that is started
/// from the seed. Nothing is claimed of the generator.
#[verifier::external_body]
pub(crate) fn seeded(seed: u64) -> StdRng {
    StdRng::seed_from_u64(seed)
}

/// `Rng::gen_range` of the crate `rand`, on a half-open range of `i64`: the
/// sample lies in the range. Which number of the range comes is left open. The
/// call panics on an empty range, so the range must not be empty.
#[verifier::external_body]
pub(crate) fn draw(rng: &mut StdRng, lower: i64, upper: i64) -> (sample: i64)
    requires
        lower < upper,
    ensures
        lower <= sample < upper,
{
    rng.gen_range(lower..upper)
}

} // verus!
