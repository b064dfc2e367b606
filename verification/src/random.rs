//! The random source. Everything the generators draw comes from a
//! `rand::rngs::StdRng` that the caller hands in, so a seeded source gives a
//! reproducible run. The functions here are the only ones that touch it; their
//! contracts say what holds of every draw and are taken on trust.

use rand::rngs::StdRng;
use rand::{Rng, RngCore};
use vstd::prelude::*;

verus! {

/// The standard generator of the `rand` crate, opaque to the verifier.
#[verifier::external_type_specification]
#[verifier::external_body]
pub struct ExStdRng(rand::rngs::StdRng);

/// `Rng::gen_range` on the half-open range `low..high`: some number of the
/// range. The range must not be empty, since `gen_range` panics on an empty one.
#[verifier::external_body]
pub(crate) fn draw_below(rng: &mut StdRng, low: u64, high: u64) -> (x: u64)
    requires
        low < high,
    ensures
        low <= x < high,
{
    rng.gen_range(low..high)
}

/// `Rng::gen_ratio`: a coin that shows `true` with the chance of `numerator`
/// in `denominator`. It always does when the two are equal and never when
/// `numerator` is zero. `gen_ratio` panics on a zero denominator and on a
/// ratio above one.
#[verifier::external_body]
pub(crate) fn draw_ratio(rng: &mut StdRng, numerator: u32, denominator: u32) -> (yes: bool)
    requires
        0 < denominator,
        numerator <= denominator,
    ensures
        numerator == denominator ==> yes,
        numerator == 0 ==> !yes,
{
    rng.gen_ratio(numerator, denominator)
}

/// `RngCore::fill_bytes`: overwrites every byte of `buffer` with a random
/// one. The length stays as it is.
#[verifier::external_body]
pub(crate) fn draw_bytes(rng: &mut StdRng, buffer: &mut Vec<u8>)
    ensures
        final(buffer)@.len() == old(buffer)@.len(),
{
    rng.fill_bytes(buffer)
}

} // verus!
