//! The simulation's random number generator and the few draws the library
//! makes from it. The generator itself is `rand_chacha::ChaCha8Rng`; every
//! draw goes through `rand::Rng`.
use rand::Rng;
use rand_chacha::ChaCha8Rng;
use vstd::prelude::*;

verus! {

/// `rand_chacha::ChaCha8Rng`, carried through verified code as an opaque value.
#[verifier::external_type_specification]
#[verifier::external_body]
pub struct ExChaCha8Rng(ChaCha8Rng);

/// Calls `rand::Rng::gen::<u64>` on the generator. Any `u64` may come back,
/// so nothing is stated of the result.
#[verifier::external_body]
pub(crate) fn random_u64(rng: &mut ChaCha8Rng) -> u64 {
    rng.gen::<u64>()
}

/// Calls `rand::Rng::gen_range(low..high)` at type `usize`. rand documents
/// that the value lies in the half-open range and that an empty range
/// panics, which `requires` rules out. Which value of the range comes back
/// rests on chance and is not stated.
#[verifier::external_body]
pub(crate) fn random_index(rng: &mut ChaCha8Rng, low: usize, high: usize) -> (r: usize)
    requires
        low < high,
    ensures
        low <= r < high,
{
    rng.gen_range(low..high)
}

/// Calls `rand::Rng::gen_range(low..high)` at type `i32` (the type the
/// crossover point is drawn at). Same statement as for `random_index`.
#[verifier::external_body]
pub(crate) fn random_i32(rng: &mut ChaCha8Rng, low: i32, high: i32) -> (r: i32)
    requires
        low < high,
    ensures
        low <= r < high,
{
    rng.gen_range(low..high)
}

/// Calls `rand::Rng::gen_ratio(numerator, denominator)`: a coin that comes up
/// true with probability numerator/denominator. rand documents, and its
/// source shows, that the coin is always false when the numerator is 0 and
/// always true when the numerator equals the denominator; it panics when the
/// denominator is 0 or below the numerator, which `requires` rules out.
/// Any other outcome rests on chance and is not stated.
#[verifier::external_body]
pub(crate) fn coin(rng: &mut ChaCha8Rng, numerator: u32, denominator: u32) -> (r: bool)
    requires
        0 < denominator,
        numerator <= denominator,
    ensures
        numerator == 0 ==> !r,
        numerator == denominator ==> r,
{
    rng.gen_ratio(numerator, denominator)
}

} // verus!
