//! The pseudo-random source: one thread-local generator handle is used for
//! the whole run, consumed through uniform range sampling and uniform
//! boolean draws.

use vstd::prelude::*;

verus! {

#[verifier::external_type_specification]
#[verifier::external_body]
pub struct ExThreadRng(rand::rngs::ThreadRng);

/// Relies on `rand::rng`: a handle to the thread-local generator.
#[verifier::external_body]
pub(crate) fn fresh_rng() -> rand::rngs::ThreadRng {
    rand::rng()
}

/// Relies on `rand::RngExt::random_range`: a value uniform in the given
/// range. It panics on an empty range, so the range is required non-empty.
#[verifier::external_body]
pub(crate) fn random_in_range(rng: &mut rand::rngs::ThreadRng, lo: u32, hi: u32) -> (r: u32)
    requires
        lo < hi,
    ensures
        lo <= r < hi,
{
    rand::RngExt::random_range(rng, lo..hi)
}

/// Relies on `rand::RngExt::random` with the uniform `bool` distribution;
/// nothing can be promised of the outcome.
#[verifier::external_body]
pub(crate) fn random_flag(rng: &mut rand::rngs::ThreadRng) -> bool {
    rand::RngExt::random::<bool>(rng)
}

} // verus!
