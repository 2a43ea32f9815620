//! Trusted access to the process randomness source.

use rand::Rng;
use vstd::prelude::*;

verus! {

/// Relies on rand's `Rng::gen_range` over `0..n`: a value uniformly drawn
/// below `n`; it panics only when the range is empty, which `1 <= n` rules
/// out. Nothing beyond the bound can be promised of a random value.
#[verifier::external_body]
pub(crate) fn rand_u32_below(n: u32) -> (r: u32)
    requires
        1 <= n,
    ensures
        r < n,
{
    rand::thread_rng().gen_range(0..n)
}

/// Relies on rand's `Rng::fill` on a byte slice: every byte is overwritten
/// with random data and the length is kept. Nothing can be promised of the
/// bytes themselves.
#[verifier::external_body]
pub(crate) fn random_bytes(n: usize) -> (r: Vec<u8>)
    ensures
        r@.len() == n,
{
    let mut buf = vec![0u8; n];
    rand::thread_rng().fill(&mut buf[..]);
    buf
}

} // verus!
