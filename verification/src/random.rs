//! The random numbers of the game, drawn from `rltk`'s generator.  The
//! functions of this file are trusted: Verus believes their contracts and
//! does not read their bodies.

use vstd::prelude::*;

verus! {

/// `rltk::RandomNumberGenerator`, of which nothing is known but that it can
/// be asked for numbers.
#[verifier::external_type_specification]
#[verifier::external_body]
pub struct ExRandomNumberGenerator(rltk::RandomNumberGenerator);

/// Calls `RandomNumberGenerator::new`, which seeds a generator from the
/// system's entropy.  Nothing is claimed of the generator.
#[verifier::external_body]
pub(crate) fn new_generator() -> rltk::RandomNumberGenerator {
    rltk::RandomNumberGenerator::new()
}

/// Calls `RandomNumberGenerator::range` on `i32`.  It samples the half-open
/// range from `min` to `max` and panics where that range is empty; claimed
/// is only that the number lies in the range.
#[verifier::external_body]
pub(crate) fn range(rng: &mut rltk::RandomNumberGenerator, min: i32, max: i32) -> (r: i32)
    requires
        min < max,
    ensures
        min <= r < max,
{
    rng.range(min, max)
}

/// Calls `RandomNumberGenerator::roll_dice`, which adds up `n` samples of
/// the range from 1 to `die_type`, both included, in an `i32`.  Claimed is
/// only that the sum lies between `n` and `n * die_type`.
#[verifier::external_body]
pub(crate) fn roll_dice(rng: &mut rltk::RandomNumberGenerator, n: i32, die_type: i32) -> (r: i32)
    requires
        0 <= n,
        1 <= die_type < i32::MAX,
        n * die_type <= i32::MAX,
    ensures
        n <= r <= n * die_type,
{
    rng.roll_dice(n, die_type)
}

} // verus!
