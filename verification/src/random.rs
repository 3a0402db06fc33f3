//! The random source. Both randomized seeding strategies and the
//! mini-batch sampler draw from one seedable source, so a fixed seed
//! reproduces a run. Everything downstream of the draws is deterministic
//! and verified; the draws themselves come from the rand crate.

use vstd::prelude::*;
use rand::Rng;
use rand::SeedableRng;

verus! {

#[verifier::external_type_specification]
#[verifier::external_body]
pub struct ExStdRng(rand::rngs::StdRng);

/// Relies on rand's `SeedableRng::seed_from_u64`: builds the pseudorandom
/// source from a caller-supplied seed, so runs can be reproduced.
#[verifier::external_body]
pub fn rng_from_seed(seed: u64) -> (r: rand::rngs::StdRng) {
    rand::rngs::StdRng::seed_from_u64(seed)
}

/// Relies on rand's `Rng::gen_range`: a value drawn uniformly from
/// `[0, n)`. It panics on an empty range, which the precondition rules
/// out.
#[verifier::external_body]
pub fn rand_index(rng: &mut rand::rngs::StdRng, n: usize) -> (r: usize)
    requires
        n >= 1,
    ensures
        r < n,
{
    rng.gen_range(0..n)
}

/// Relies on rand's `Rng::gen`: a uniformly drawn 64-bit value.
#[verifier::external_body]
pub fn rand_u64(rng: &mut rand::rngs::StdRng) -> (r: u64) {
    rng.gen()
}

} // verus!
