//! The random source the driver draws from.
use rand::rngs::ThreadRng;
use rand::Rng;
use vstd::prelude::*;

verus! {

#[verifier::external_type_specification]
#[verifier::external_body]
pub struct ExThreadRng(rand::rngs::ThreadRng);

/// Relies on rand::thread_rng: a handle on the calling thread's generator.
#[verifier::external_body]
pub(crate) fn fresh_rng() -> (r: ThreadRng) {
    rand::thread_rng()
}

/// Relies on rand::Rng::gen_range: a value drawn from `lo..hi`, which must not
/// be empty.
#[verifier::external_body]
pub(crate) fn draw_below(rng: &mut ThreadRng, lo: usize, hi: usize) -> (r: usize)
    requires
        lo < hi,
    ensures
        lo <= r < hi,
{
    rng.gen_range(lo..hi)
}

/// Relies on rand::Rng::gen_ratio: `true` with probability
/// `numerator / denominator`; it panics unless `0 < denominator` and
/// `numerator <= denominator`.
#[verifier::external_body]
pub(crate) fn draw_ratio(rng: &mut ThreadRng, numerator: u32, denominator: u32) -> (r: bool)
    requires
        0 < denominator,
        numerator <= denominator,
{
    rng.gen_ratio(numerator, denominator)
}

} // verus!
