//! Random-number access for the solver.
//!
//! All randomness flows through the `rand` crate's `StdRng`.  The
//! generator type is declared opaquely; the wrappers below state only
//! what holds of every outcome (a drawn index is within its range), so
//! everything proved about the solver holds whatever numbers come out.

use vstd::prelude::*;

verus! {

#[verifier::external_type_specification]
#[verifier::external_body]
pub struct ExStdRng(rand::rngs::StdRng);

/// Relies on rand's `SeedableRng::seed_from_u64`: builds a generator
/// from a 64-bit seed.  The stream it produces is a fixed function of
/// the seed, which is what makes seeded runs reproducible; nothing
/// about the stream is assumed here.
#[verifier::external_body]
pub fn rng_from_seed(seed: u64) -> rand::rngs::StdRng {
    <rand::rngs::StdRng as rand::SeedableRng>::seed_from_u64(seed)
}

/// Relies on rand's `SeedableRng::from_entropy`: builds a generator
/// seeded from the operating system.  Nothing is assumed of its output.
#[verifier::external_body]
pub fn rng_from_entropy() -> rand::rngs::StdRng {
    <rand::rngs::StdRng as rand::SeedableRng>::from_entropy()
}

/// Relies on rand's `Rng::gen_range`: a draw from `0..n` lies below `n`
/// and the call does not panic when the range is non-empty.
#[verifier::external_body]
pub fn rng_below(rng: &mut rand::rngs::StdRng, n: usize) -> (k: usize)
    requires
        n > 0,
    ensures
        k < n,
{
    rand::Rng::gen_range(rng, 0..n)
}

/// Relies on rand's `Rng::gen_range`: a draw from `0..n` lies below `n`.
/// Used for fixed-point probability draws in `0..PROB_ONE`.
#[verifier::external_body]
pub fn rng_below_u64(rng: &mut rand::rngs::StdRng, n: u64) -> (k: u64)
    requires
        n > 0,
    ensures
        k < n,
{
    rand::Rng::gen_range(rng, 0..n)
}

} // verus!
