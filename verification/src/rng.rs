//! Trusted boundary around the `rand` crate: the machine owns a thread-local
//! random generator and draws uniformly distributed bytes from it.
use rand::Rng;
use vstd::prelude::*;

verus! {

#[verifier::external_type_specification]
#[verifier::external_body]
pub struct ExThreadRng(rand::rngs::ThreadRng);

/// Relies on rand::thread_rng: hands back the calling thread's lazily
/// initialized random generator.
#[verifier::external_body]
pub(crate) fn fresh_rng() -> rand::rngs::ThreadRng {
    rand::thread_rng()
}

/// Relies on rand::Rng::gen_range over the full byte range 0..=255 (a
/// non-empty range, so the call cannot panic): a uniformly distributed
/// byte. Nothing is promised of the value.
#[verifier::external_body]
pub(crate) fn random_byte(rng: &mut rand::rngs::ThreadRng) -> u8 {
    rng.gen_range(0u8..=255u8)
}

} // verus!
