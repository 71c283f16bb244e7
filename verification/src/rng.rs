//! Trusted declarations for the pseudo-random generator of the `rand` crate
//! that the engine draws piece shapes from.

use rand::Rng;
use rand::SeedableRng;
use vstd::prelude::*;

verus! {

/// The seedable standard generator type of the `rand` crate, kept opaque.
#[verifier::external_type_specification]
#[verifier::external_body]
pub struct ExStdRng(rand::rngs::StdRng);

/// Relies on `rand::SeedableRng::seed_from_u64`: builds a generator from a
/// 64-bit seed. Nothing is assumed about the stream it produces.
#[verifier::external_body]
pub(crate) fn rng_from_seed(seed: u64) -> rand::rngs::StdRng {
    rand::rngs::StdRng::seed_from_u64(seed)
}

/// Relies on `rand::Rng::gen_range`: over a nonempty inclusive range it
/// returns a value of that range (and panics only on an empty range, which
/// the precondition rules out). Which value comes back is not assumed.
#[verifier::external_body]
pub(crate) fn rng_gen_range(rng: &mut rand::rngs::StdRng, lo: i32, hi: i32) -> (r: i32)
    requires
        lo <= hi,
    ensures
        lo <= r <= hi,
{
    rng.gen_range(lo..=hi)
}

} // verus!
