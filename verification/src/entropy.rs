//! Trusted boundary to the process's random number source.
//!
//! Every random draw the encoder makes comes through one of these
//! wrappers. Nothing is promised of the values themselves beyond their
//! documented range: every caller is verified for every outcome.

use vstd::prelude::*;

verus! {

/// Declares rand's thread-local generator type, so that the handle can
/// be threaded explicitly through every function that draws from it.
#[verifier::external_type_specification]
#[verifier::external_body]
pub struct ExThreadRng(rand::rngs::ThreadRng);

/// Relies on rand's `Rng::gen::<u64>`: fills a `u64` with uniformly
/// random bits. Nothing can be promised of the result.
#[verifier::external_body]
pub(crate) fn next_u64(rng: &mut rand::rngs::ThreadRng) -> u64 {
    rand::Rng::gen(rng)
}

/// Relies on rand's `Rng::gen_range(0..9)`: returns a value drawn from
/// the given nonempty range, so the result is below 9.
#[verifier::external_body]
pub(crate) fn next_rule_index(rng: &mut rand::rngs::ThreadRng) -> (r: usize)
    ensures
        r < 9,
{
    rand::Rng::gen_range(rng, 0usize..9)
}

/// Relies on rand's `Rng::gen_range(16..=32)`: returns a value drawn
/// from the given inclusive range.
#[verifier::external_body]
pub(crate) fn next_round_count(rng: &mut rand::rngs::ThreadRng) -> (r: u64)
    ensures
        16 <= r <= 32,
{
    rand::Rng::gen_range(rng, 16u64..=32)
}

} // verus!
