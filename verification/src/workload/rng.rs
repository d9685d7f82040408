//! The seeded random number generator that the workloads draw from.
use rand::rngs::StdRng;
use rand::{RngExt, SeedableRng};
use vstd::prelude::*;

verus! {

#[verifier::external_type_specification]
#[verifier::external_body]
pub struct ExStdRng(StdRng);

/// `StdRng::seed_from_u64`: a generator seeded with `seed`. Nothing is
/// stated of what it will draw.
#[verifier::external_body]
pub(crate) fn seeded(seed: u64) -> StdRng {
    StdRng::seed_from_u64(seed)
}

/// `RngExt::random_range(low..high)` over `u64`: some value in
/// `[low, high)`. rand panics on an empty range, which the requirement rules
/// out.
#[verifier::external_body]
pub(crate) fn random_u64_in(rng: &mut StdRng, low: u64, high: u64) -> (r: u64)
    requires
        low < high,
    ensures
        low <= r < high,
{
    rng.random_range(low..high)
}

/// `RngExt::random_range(low..high)` over `usize`: some value in `[low, high)`.
#[verifier::external_body]
pub(crate) fn random_usize_in(rng: &mut StdRng, low: usize, high: usize) -> (r: usize)
    requires
        low < high,
    ensures
        low <= r < high,
{
    rng.random_range(low..high)
}

/// `RngExt::random_range(low..high)` over `i64`: some value in `[low, high)`.
#[verifier::external_body]
pub(crate) fn random_i64_in(rng: &mut StdRng, low: i64, high: i64) -> (r: i64)
    requires
        low < high,
    ensures
        low <= r < high,
{
    rng.random_range(low..high)
}

/// `RngExt::random::<u64>()`: 64 random bits (the draw that `random::<f64>()`
/// scales to `[0, 1)` from its top 53 bits). Nothing is stated of the value.
#[verifier::external_body]
pub(crate) fn random_bits(rng: &mut StdRng) -> u64 {
    rng.random::<u64>()
}

} // verus!
