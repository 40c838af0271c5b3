//! The dice that pick each new piece, drawn from `rltk`'s random number
//! generator.

use vstd::prelude::*;

verus! {

/// The generator type of `rltk` (defined in `bracket-random`), carried
/// through the game as an opaque value.
#[verifier::external_type_specification]
#[verifier::external_body]
pub struct ExRandomNumberGenerator(rltk::RandomNumberGenerator);

/// Calls `rltk::RandomNumberGenerator::new`, which seeds a fresh generator
/// from the operating system (or the clock). Nothing is promised of the seed.
#[verifier::external_body]
pub(crate) fn new_generator() -> rltk::RandomNumberGenerator {
    rltk::RandomNumberGenerator::new()
}

/// Calls `rltk::RandomNumberGenerator::roll_dice(n, die_type)`, which sums
/// `n` draws of `range(1, die_type + 1)`, each in `1..=die_type`; the sum
/// therefore lies in `n..=n * die_type`. Which value comes out depends on the
/// generator's hidden state and is not stated. The `requires` keeps the
/// range non-empty and the sum inside `i32`.
#[verifier::external_body]
pub(crate) fn roll_dice(rng: &mut rltk::RandomNumberGenerator, n: i32, die_type: i32) -> (total: i32)
    requires
        1 <= n,
        1 <= die_type < i32::MAX,
        n * die_type <= i32::MAX,
    ensures
        n <= total <= n * die_type,
{
    rng.roll_dice(n, die_type)
}

} // verus!
