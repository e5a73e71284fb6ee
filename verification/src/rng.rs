use vstd::prelude::*;
use bracket_random::prelude::RandomNumberGenerator;

verus! {

#[verifier::external_type_specification]
#[verifier::external_body]
pub struct ExRandomNumberGenerator(RandomNumberGenerator);

/// Relies on bracket_random's RandomNumberGenerator::seeded, which
/// builds the generator deterministically from the given seed.
#[verifier::external_body]
pub(crate) fn rng_seeded(seed: u64) -> (r: RandomNumberGenerator) {
    RandomNumberGenerator::seeded(seed)
}

/// Relies on bracket_random's RandomNumberGenerator::range: a draw from
/// [min, max), inclusive below and exclusive above.
#[verifier::external_body]
pub(crate) fn rng_range(rng: &mut RandomNumberGenerator, min: i32, max: i32) -> (r: i32)
    requires
        min < max,
    ensures
        min <= r < max,
{
    rng.range(min, max)
}

/// Relies on bracket_random's RandomNumberGenerator::roll_dice: the sum
/// of n dice that each land in [1, die_type].
#[verifier::external_body]
pub(crate) fn rng_roll_dice(rng: &mut RandomNumberGenerator, n: i32, die_type: i32) -> (r: i32)
    requires
        1 <= n,
        1 <= die_type,
        die_type + 1 <= i32::MAX,
        n * die_type <= i32::MAX,
    ensures
        n <= r <= n * die_type,
{
    rng.roll_dice(n, die_type)
}

} // verus!
