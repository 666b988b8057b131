//! The random source that breaks ties. It is handed in by the caller, who may seed it.

use vstd::prelude::*;
use rand::Rng;
use rand::rngs::StdRng;

verus! {

/// The standard generator of rand, `rand::rngs::StdRng`. Nothing is known of its state: a
/// value of it is only carried to the two calls below.
#[verifier::external_type_specification]
#[verifier::external_body]
pub struct ExStdRng(rand::rngs::StdRng);

/// Calls `Rng::gen_range` of rand with the bounds 0 and `n`. The generator documents a
/// value from 0 up to but not including `n`, and a panic where `n` is 0; nothing is
/// claimed about which value comes.
#[verifier::external_body]
pub(crate) fn pick_below(rng: &mut StdRng, n: usize) -> (i: usize)
    requires
        n > 0,
    ensures
        i < n,
{
    rng.gen_range(0, n)
}

/// Calls `Rng::gen` of rand for a `bool`. Nothing is claimed about the outcome.
#[verifier::external_body]
pub(crate) fn flip(rng: &mut StdRng) -> (heads: bool) {
    rng.gen()
}

} // verus!
