//! Trusted access to the seeded random number generator used for
//! synthetic model-point cohorts.

use ndarray_rand::rand::rngs::StdRng;
use vstd::prelude::*;

verus! {

#[verifier::external_type_specification]
#[verifier::external_body]
pub struct ExStdRng(StdRng);

/// Relies on rand's `SeedableRng::seed_from_u64`: builds a generator
/// from a fixed seed.  Nothing is assumed about the values it yields.
#[verifier::external_body]
pub fn rng_from_seed(seed: u64) -> (r: StdRng) {
    <StdRng as ndarray_rand::rand::SeedableRng>::seed_from_u64(seed)
}

/// Relies on rand's `Rng::random_range`: the sample lies in the given
/// half-open range, which must not be empty.  Nothing else is assumed
/// of the value.
#[verifier::external_body]
pub fn rand_range_u64(rng: &mut StdRng, lo: u64, hi: u64) -> (r: u64)
    requires
        lo < hi,
    ensures
        lo <= r < hi,
{
    ndarray_rand::rand::Rng::random_range(rng, lo..hi)
}

} // verus!
