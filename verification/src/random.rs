//! Random values, from the `rand` crate's thread-local generator.
use vstd::prelude::*;

verus! {

/// Fills a fresh buffer with `rand::RngCore::fill_bytes` on
/// `rand::thread_rng()`. The buffer keeps its length; nothing is claimed of
/// the bytes.
#[verifier::external_body]
pub(crate) fn random_bytes(n: usize) -> (r: Vec<u8>)
    ensures
        r@.len() == n,
{
    let mut r: Vec<u8> = vec![0u8; n];
    rand::RngCore::fill_bytes(&mut rand::thread_rng(), &mut r);
    r
}

/// `rand::Rng::gen_range(low..=high)` on `rand::thread_rng()`: some number of
/// the range. Nothing is claimed of which one. The range may not be empty.
#[verifier::external_body]
pub(crate) fn random_between(low: u16, high: u16) -> (r: u16)
    requires
        low <= high,
    ensures
        low <= r <= high,
{
    rand::Rng::gen_range(&mut rand::thread_rng(), low..=high)
}

} // verus!
