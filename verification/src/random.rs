//! The random draws the generators are built on.
//!
//! The generator is `rand`'s thread-local one. Its state is opaque here: the
//! contracts below state only what holds of every draw.

use rand::rngs::ThreadRng;
use rand::Rng;
use vstd::prelude::*;

verus! {

/// `rand::rngs::ThreadRng`, the handle to the thread-local generator. It
/// is carried through; nothing is claimed of what it holds.
#[verifier::external_type_specification]
#[verifier::external_body]
pub struct ExThreadRng(rand::rngs::ThreadRng);

/// Calls `Rng::gen_range` on the half-open range `low..high`.
///
/// Trusted: the draw lies in the range. `gen_range` panics on an empty
/// range, which the precondition excludes.
#[verifier::external_body]
pub(crate) fn uniform_in(rng: &mut ThreadRng, low: u32, high: u32) -> (drawn: u32)
    requires
        low < high,
    ensures
        low <= drawn < high,
{
    rng.gen_range(low..high)
}

/// Calls `Rng::gen` for a `bool`. Trusted to return; nothing is claimed of
/// the value.
#[verifier::external_body]
pub(crate) fn coin_flip(rng: &mut ThreadRng) -> (heads: bool) {
    rng.gen()
}

} // verus!
