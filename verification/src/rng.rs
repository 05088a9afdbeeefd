//! Seedable pseudo-random source for map generation.
//!
//! Generation must be reproducible under a fixed seed, so the generator is
//! injected by the caller rather than drawn from process-wide entropy. The
//! calls into the `rand` crate stand behind trusted wrappers; every verified
//! caller is proved correct for every value the wrappers may hand back.
use vstd::prelude::*;
use rand::Rng;
use rand::SeedableRng;

verus! {

#[verifier::external_type_specification]
#[verifier::external_body]
pub struct ExStdRng(rand::rngs::StdRng);

/// Relies on rand's `StdRng::seed_from_u64`: builds a deterministic
/// pseudo-random generator from the given seed.
#[verifier::external_body]
pub fn seed_rng(seed: u64) -> rand::rngs::StdRng {
    rand::rngs::StdRng::seed_from_u64(seed)
}

/// Relies on rand's `Rng::gen_range` on the half-open range `lo..hi`: the
/// sample lies in that range. The call panics only on an empty range, which
/// the precondition rules out.
#[verifier::external_body]
pub fn rng_range(rng: &mut rand::rngs::StdRng, lo: i32, hi: i32) -> (r: i32)
    requires
        lo < hi,
    ensures
        lo <= r < hi,
{
    rng.gen_range(lo..hi)
}

/// Relies on rand's `Rng::gen::<bool>`: a random draw of which nothing is
/// promised.
#[verifier::external_body]
pub fn rng_bool(rng: &mut rand::rngs::StdRng) -> bool {
    rng.gen::<bool>()
}

} // verus!
