//! Random draws. Each wrapper states only what holds of every outcome.

use vstd::prelude::*;
use rand::seq::SliceRandom;

verus! {

/// `rand::random_range(lo..hi)` on `i64`: some value in the half-open range,
/// drawn from the thread-local generator.
#[verifier::external_body]
pub(crate) fn random_i64(lo: i64, hi: i64) -> (r: i64)
    requires
        lo < hi,
    ensures
        lo <= r < hi,
{
    rand::random_range(lo..hi)
}

/// `rand::random_range(0..n)` on `usize`: some index below `n`.
#[verifier::external_body]
pub(crate) fn random_index(n: usize) -> (r: usize)
    requires
        n > 0,
    ensures
        r < n,
{
    rand::random_range(0..n)
}

/// `rand::random_range(0..n)` on `u128`: some value below `n`.
#[verifier::external_body]
pub(crate) fn random_below(n: u128) -> (r: u128)
    requires
        n > 0,
    ensures
        r < n,
{
    rand::random_range(0..n)
}

/// `rand::random::<u64>()`: any `u64`, from the thread-local generator.
/// Nothing is stated of its value.
#[verifier::external_body]
pub(crate) fn random_u64() -> (r: u64) {
    rand::random::<u64>()
}

/// `SliceRandom::shuffle` with the thread-local generator: the same elements,
/// in some order.
#[verifier::external_body]
pub(crate) fn shuffled(v: Vec<u32>) -> (r: Vec<u32>)
    ensures
        r@.to_multiset() == v@.to_multiset(),
        r@.len() == v@.len(),
{
    let mut v = v;
    v.shuffle(&mut rand::rng());
    v
}

} // verus!
