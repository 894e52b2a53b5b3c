//! The source of randomness: the thread-local generator of `rand`.
use rand::RngCore;
use vstd::prelude::*;

verus! {

/// Fills `buf` with bytes from `rand::thread_rng()` (`RngCore::fill_bytes`).
/// Only the length of the buffer is promised: its contents are random.
#[verifier::external_body]
pub(crate) fn fill_random_bytes(buf: &mut Vec<u8>)
    ensures
        final(buf)@.len() == old(buf)@.len(),
{
    rand::thread_rng().fill_bytes(buf.as_mut_slice());
}

} // verus!
