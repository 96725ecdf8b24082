//! Trusted boundary to the outside random number generator.  Nothing is
//! assumed about which numbers come out beyond the documented bounds, so
//! everything proved downstream holds for every possible outcome.

use vstd::prelude::*;

verus! {

#[verifier::external_type_specification]
#[verifier::external_body]
pub struct ExRandomNumberGenerator(rltk::RandomNumberGenerator);

/// Relies on rltk::RandomNumberGenerator::seeded: builds a generator from a
/// fixed seed.
#[verifier::external_body]
pub fn rng_seeded(seed: u64) -> rltk::RandomNumberGenerator {
    rltk::RandomNumberGenerator::seeded(seed)
}

/// Relies on rltk::RandomNumberGenerator::range: a number at least `min` and
/// strictly below `max`.  An empty range makes the outside call panic, so the
/// precondition rules it out.
#[verifier::external_body]
pub fn rng_range(rng: &mut rltk::RandomNumberGenerator, min: i32, max: i32) -> (r: i32)
    requires
        min < max,
    ensures
        min <= r < max,
{
    rng.range(min, max)
}

/// Relies on rltk::RandomNumberGenerator::roll_dice: the sum of `n` rolls of
/// a die with `die_type` sides, so between `n` and `n * die_type`.  The
/// outside body computes `die_type + 1`, so the largest die is ruled out
/// along with any overflowing sum.
#[verifier::external_body]
pub fn rng_roll_dice(rng: &mut rltk::RandomNumberGenerator, n: i32, die_type: i32) -> (r: i32)
    requires
        1 <= n,
        1 <= die_type < i32::MAX,
        n * die_type <= i32::MAX,
    ensures
        n <= r <= n * die_type,
{
    rng.roll_dice(n, die_type)
}

} // verus!
