use rand::Rng;
use rand_xorshift::XorShiftRng;
use vstd::prelude::*;

verus! {

/// The seeded generator that every chance decision of the model draws from.
#[verifier::external_type_specification]
#[verifier::external_body]
pub struct ExXorShiftRng(XorShiftRng);

/// Relies on rand's `Rng::gen_ratio`: true with chance `numerator / denominator`,
/// always false when `numerator` is 0 and always true when it equals
/// `denominator`; it panics when `denominator` is 0 or below `numerator`.
#[verifier::external_body]
pub(crate) fn gen_ratio(rng: &mut XorShiftRng, numerator: u32, denominator: u32) -> (r: bool)
    requires
        0 < denominator,
        numerator <= denominator,
    ensures
        numerator == 0 ==> !r,
        numerator == denominator ==> r,
{
    rng.gen_ratio(numerator, denominator)
}

/// Relies on rand's `Rng::gen_range` on `u64`: a value drawn uniformly from
/// `[low, high)`; it panics when `low >= high`.
#[verifier::external_body]
pub(crate) fn gen_range(rng: &mut XorShiftRng, low: u64, high: u64) -> (r: u64)
    requires
        low < high,
    ensures
        low <= r < high,
{
    rng.gen_range(low, high)
}

} // verus!
