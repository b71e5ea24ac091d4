//! The random source behind rolling.
use rand::Rng;
use vstd::prelude::*;

verus! {

/// Relies on rand::thread_rng and Rng::gen_range (rand 0.7): a uniformly
/// drawn value in the half-open range `[low, high)`; it panics when
/// `low >= high`, which `requires` rules out.
#[verifier::external_body]
pub(crate) fn gen_range(low: u64, high: u64) -> (r: u64)
    requires
        low < high,
    ensures
        low <= r < high,
{
    rand::thread_rng().gen_range(low, high)
}

} // verus!
