//! The random stream of a dive: the draws that the generator makes from a
//! seeded `rand::StdRng`. Of a draw only its range is known.

use rand::Rng;
use rand::StdRng;
use vstd::prelude::*;

verus! {

/// The generator `rand::StdRng`: a value that the library hands on and never
/// looks into.
#[verifier::external_type_specification]
#[verifier::external_body]
pub struct ExStdRng(StdRng);

/// Calls `Rng::gen` for a `bool`. Nothing is claimed of the value drawn.
#[verifier::external_body]
pub(crate) fn draw_bool(rng: &mut StdRng) -> (heads: bool) {
    rng.gen()
}

/// Calls `Rng::gen_range` for a `u32`: the value drawn lies in
/// `[low, high)`. The call panics unless `low < high`.
#[verifier::external_body]
pub(crate) fn draw_u32(rng: &mut StdRng, low: u32, high: u32) -> (value: u32)
    requires
        low < high,
    ensures
        low <= value < high,
{
    rng.gen_range(low, high)
}

/// Calls `Rng::gen_range` for a `usize`: the value drawn lies in
/// `[low, high)`. The call panics unless `low < high`.
#[verifier::external_body]
pub(crate) fn draw_usize(rng: &mut StdRng, low: usize, high: usize) -> (value: usize)
    requires
        low < high,
    ensures
        low <= value < high,
{
    rng.gen_range(low, high)
}

} // verus!
