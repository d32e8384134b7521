use rand::rngs::StdRng;
use rand::Rng;
use vstd::prelude::*;

verus! {

/// `rand::rngs::StdRng`, carried through as it comes: nothing is known of
/// what a generator holds.
#[verifier::external_type_specification]
#[verifier::external_body]
pub struct ExStdRng(StdRng);

/// Draws a coordinate along one axis with `rand::Rng::gen_range` on the
/// half-open range `0..bound`. Trusted: the draw lies in the range. Which
/// value comes back is up to the generator, so nothing more is claimed.
/// `gen_range` panics on an empty range and on no other, hence `bound > 0`
/// and the promise not to unwind.
#[verifier::external_body]
pub(crate) fn draw_below(rng: &mut StdRng, bound: usize) -> (drawn: usize)
    requires
        bound > 0,
    ensures
        drawn < bound,
    no_unwind
{
    rng.gen_range(0..bound)
}

/// Tosses a coin with `rand::Rng::gen_range` on the closed range `0..=1`.
/// Trusted: the result is 0 or 1, and the call does not unwind, the range
/// being never empty. Which of the two comes back is up to the generator.
#[verifier::external_body]
pub(crate) fn toss(rng: &mut StdRng) -> (face: i32)
    ensures
        face == 0 || face == 1,
    no_unwind
{
    rng.gen_range(0..=1)
}

} // verus!
