//! The injected randomness source of the maze generator.
//!
//! The generator is handed a seedable pseudo-random generator, so that a
//! seeded run reproduces its maze exactly; the game's constructor seeds one
//! from the system. Nothing is assumed of a drawn value beyond its range.

use vstd::prelude::*;
use rand::Rng;
use rand::SeedableRng;

verus! {

#[verifier::external_type_specification]
#[verifier::external_body]
pub struct ExStdRng(rand::rngs::StdRng);

/// Relies on rand's `StdRng::from_entropy`: a generator freshly seeded from
/// the system's entropy source. Nothing is assumed of the values it yields.
#[verifier::external_body]
pub(crate) fn fresh_rng() -> rand::rngs::StdRng {
    rand::rngs::StdRng::from_entropy()
}

/// Relies on rand's `Rng::gen_range` on the range `0..n`: a uniformly drawn
/// value below `n`. The call panics only on an empty range, which `n >= 1`
/// rules out; nothing else is assumed of the outcome.
#[verifier::external_body]
pub(crate) fn rand_below(generator: &mut rand::rngs::StdRng, n: usize) -> (r: usize)
    requires
        n >= 1,
    ensures
        r < n,
{
    generator.gen_range(0..n)
}

} // verus!
