//! Randomness for the probabilistic part of gossip redundancy, behind trusted
//! wrappers around the `rand` crate. Nothing in the library's proofs depends
//! on which way a draw goes: callers are verified for every outcome.

use vstd::prelude::*;

verus! {

/// The per-thread random number generator of the `rand` crate, opaque to the
/// verifier.
#[verifier::external_type_specification]
#[verifier::external_body]
pub struct ExThreadRng(rand::rngs::ThreadRng);

/// Relies on `rand::thread_rng`: hands out the thread-local generator.
/// Nothing is assumed about the values it will produce.
#[verifier::external_body]
pub(crate) fn thread_rng() -> rand::rngs::ThreadRng {
    rand::thread_rng()
}

/// Relies on `rand::Rng::gen_ratio`: returns true with probability
/// `numerator/denominator`. Its documentation promises the outcome when the
/// ratio is zero or one, and that the call panics exactly when `denominator`
/// is zero or the ratio exceeds one, which the precondition rules out.
#[verifier::external_body]
pub(crate) fn gen_ratio(rng: &mut rand::rngs::ThreadRng, numerator: u32, denominator: u32) -> (r: bool)
    requires
        0 < denominator,
        numerator <= denominator,
    ensures
        numerator == 0 ==> r == false,
        numerator == denominator ==> r == true,
{
    rand::Rng::gen_ratio(rng, numerator, denominator)
}

} // verus!
