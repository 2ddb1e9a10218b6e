//! Random bytes for keys, salts and nonces, and the wiping of key material.

use vstd::prelude::*;
use rand::RngCore;
use zeroize::Zeroize;

verus! {

/// Fills a vector of `len` bytes from `rand::thread_rng`, the thread's
/// cryptographically secure generator. Nothing is known of the bytes but
/// their number.
#[verifier::external_body]
pub(crate) fn random_bytes(len: usize) -> (r: Vec<u8>)
    ensures
        r@.len() == len,
{
    let mut buf = vec![0u8; len];
    rand::thread_rng().fill_bytes(&mut buf);
    buf
}

/// Overwrites the bytes of `buf` with zeros and empties it, with
/// `zeroize::Zeroize::zeroize`, which the compiler may not optimise away.
#[verifier::external_body]
pub(crate) fn wipe(buf: &mut Vec<u8>)
    ensures
        final(buf)@.len() == 0,
    opens_invariants none
    no_unwind
{
    buf.zeroize();
}

/// Overwrites a 32-byte key with zeros, with `zeroize::Zeroize::zeroize`.
#[verifier::external_body]
pub(crate) fn wipe_key(buf: &mut [u8; 32])
    ensures
        forall|i: int| 0 <= i < 32 ==> final(buf)@[i] == 0,
{
    buf.zeroize();
}

} // verus!
