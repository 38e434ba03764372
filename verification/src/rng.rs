//! The random source: the dice of the `rltk` crate.

use vstd::prelude::*;
use rltk::RandomNumberGenerator;

verus! {

#[verifier::external_type_specification]
#[verifier::external_body]
pub struct ExRandomNumberGenerator(RandomNumberGenerator);


/// `RandomNumberGenerator::new`: a generator seeded from the operating
/// system. Nothing is claimed of its state.
#[verifier::external_body]
pub(crate) fn new_rng() -> RandomNumberGenerator {
    RandomNumberGenerator::new()
}

/// `RandomNumberGenerator::range`: some value from `min` up to but not
/// including `max`. The call panics on an empty range, which `requires`
/// leaves out.
#[verifier::external_body]
pub(crate) fn range(rng: &mut RandomNumberGenerator, min: i32, max: i32) -> (r: i32)
    requires
        min < max,
    ensures
        min <= r < max,
{
    rng.range(min, max)
}

/// `RandomNumberGenerator::roll_dice`: the sum of `n` dice with the faces 1
/// to `die_type`; zero when `n` is not positive. The call panics when a die
/// has no face or the sum leaves `i32`, which `requires` leaves out.
#[verifier::external_body]
pub(crate) fn roll_dice(rng: &mut RandomNumberGenerator, n: i32, die_type: i32) -> (r: i32)
    requires
        n <= 0 || (1 <= die_type < i32::MAX && n * die_type <= i32::MAX),
    ensures
        n <= 0 ==> r == 0,
        n > 0 ==> n <= r <= n * die_type,
{
    rng.roll_dice(n, die_type)
}

} // verus!
