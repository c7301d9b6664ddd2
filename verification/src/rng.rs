//! The random draws that the simulation makes, from a generator that the
//! caller hands in.

use vstd::prelude::*;
use rand::rngs::SmallRng;
use rand::Rng;

verus! {

/// `rand::rngs::SmallRng`, the generator that every random operation of the
/// simulation draws from. Nothing is known of its state.
#[verifier::external_type_specification]
#[verifier::external_body]
pub struct ExSmallRng(rand::rngs::SmallRng);

/// Draws an integer with `rand::Rng::gen_range`. The contract is not
/// proved. It claims what the method documents: given bounds of which the
/// lower is less, the draw is no less than the lower and less than the
/// upper bound.
#[verifier::external_body]
pub(crate) fn draw_range(rng: &mut SmallRng, low: i64, high: i64) -> (r: i64)
    requires
        low < high,
    ensures
        low <= r < high,
{
    rng.gen_range(low, high)
}

/// Draws a truth value with `rand::Rng::gen_ratio`, which is true with the
/// probability `numerator / denominator`. The contract is not proved. It
/// claims what the method documents of the two certain cases: a numerator
/// of zero gives false, and one equal to the denominator gives true.
#[verifier::external_body]
pub(crate) fn draw_ratio(rng: &mut SmallRng, numerator: u32, denominator: u32) -> (r: bool)
    requires
        0 < denominator,
        numerator <= denominator,
    ensures
        numerator == 0 ==> !r,
        numerator == denominator ==> r,
{
    rng.gen_ratio(numerator, denominator)
}

} // verus!
