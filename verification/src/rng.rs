//! The engine's only randomness boundary: a seedable generator supplied by
//! the caller, consulted for the shuffle and for the trump draw.

use vstd::prelude::*;
use rand::Rng;

verus! {

/// Declares `rand::rngs::StdRng` so it can appear in signatures; the value
/// is opaque to the verifier.  Callers construct one themselves (for
/// reproducible games, from a seed).
#[verifier::external_type_specification]
#[verifier::external_body]
pub struct ExStdRng(rand::rngs::StdRng);

/// Relies on `rand::Rng::gen_range` over the half-open range `0..bound`:
/// for a non-empty range it returns a value inside the range (it panics on
/// an empty one, which `bound > 0` rules out).  Nothing else is assumed of
/// the draw; the callers are verified for every value below `bound`.
#[verifier::external_body]
pub(crate) fn rng_index(rng: &mut rand::rngs::StdRng, bound: usize) -> (r: usize)
    requires
        bound > 0,
    ensures
        r < bound,
{
    rng.gen_range(0..bound)
}

} // verus!
