//! Random draws for the animation, from the thread-local generator.
use vstd::prelude::*;
use rand::Rng;

verus! {

/// Relies on rand::Rng::gen_range on rand::thread_rng(): a value drawn from
/// `lo..hi`, which must not be empty (gen_range panics on an empty range).
#[verifier::external_body]
pub(crate) fn random_in(lo: u64, hi: u64) -> (r: u64)
    requires
        lo < hi,
    ensures
        lo <= r < hi,
{
    rand::thread_rng().gen_range(lo..hi)
}

/// Relies on rand::Rng::gen_ratio on rand::thread_rng(): true with chance
/// `numerator / denominator`; never when the numerator is 0, always when it
/// equals the denominator (gen_ratio panics on a zero denominator or a
/// numerator above it).
#[verifier::external_body]
pub(crate) fn random_chance(numerator: u32, denominator: u32) -> (r: bool)
    requires
        0 < denominator,
        numerator <= denominator,
    ensures
        numerator == 0 ==> !r,
        numerator == denominator ==> r,
{
    rand::thread_rng().gen_ratio(numerator, denominator)
}

} // verus!
