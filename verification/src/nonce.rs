//! Random 32-byte nonces for proof-of-work, behind a trusted wrapper.

use rand::RngCore;
use vstd::prelude::*;

verus! {

/// Relies on rand::rng and RngCore::fill_bytes: 32 bytes whose values are
/// random, so nothing is promised of them beyond the length.
#[verifier::external_body]
pub fn generate_nonce() -> (r: Vec<u8>)
    ensures
        r@.len() == 32,
{
    let mut nonce = [0u8; 32];
    rand::rng().fill_bytes(&mut nonce);
    nonce.to_vec()
}

} // verus!
