//! ECDSA secp256k1 keys, signing and verification, behind trusted wrappers.
//!
//! The library holds keys as plain bytes: a 32-byte secret scalar and the
//! SEC1-compressed public key derived from it. What the curve arithmetic
//! computes is left uninterpreted and named below.

use k256::ecdsa::signature::{Signer, Verifier};
use vstd::prelude::*;

verus! {

/// Whether `signing_key` is the byte form of a valid secp256k1 secret
/// scalar, that is, whether `k256::ecdsa::SigningKey::from_slice` accepts it.
pub uninterp spec fn valid_signing_key(signing_key: Seq<u8>) -> bool;

/// The SEC1-compressed byte form of the verifying key derived from
/// `signing_key`, as `k256::ecdsa::VerifyingKey::to_sec1_bytes` returns it.
pub uninterp spec fn public_key_of(signing_key: Seq<u8>) -> Seq<u8>;

/// The 64-byte ECDSA signature over `message` by `signing_key`. Signing is
/// RFC 6979 deterministic, so this is a function of the two arguments.
pub uninterp spec fn signature_of(signing_key: Seq<u8>, message: Seq<u8>) -> Seq<u8>;

/// Whether `signature` is an ECDSA signature over `message` that the key
/// with SEC1 bytes `public_key` accepts; false as well when the key or
/// signature bytes are malformed.
pub uninterp spec fn sig_verifies(public_key: Seq<u8>, message: Seq<u8>, signature: Seq<u8>) -> bool;

/// Relies on k256::ecdsa::SigningKey::random and VerifyingKey::to_sec1_bytes:
/// a freshly drawn key is a valid secret scalar of 32 bytes, and the second
/// component is its derived public key.
#[verifier::external_body]
pub fn generate_keypair() -> (r: (Vec<u8>, Vec<u8>))
    ensures
        valid_signing_key(r.0@),
        r.0@.len() == 32,
        r.1@ == public_key_of(r.0@),
{
    let sk = k256::ecdsa::SigningKey::random(&mut rand_core::OsRng);
    let pk = k256::ecdsa::VerifyingKey::from(&sk);
    (sk.to_bytes().to_vec(), pk.to_sec1_bytes().to_vec())
}

/// Relies on k256::ecdsa::SigningKey::from_slice: it accepts exactly the
/// valid secret scalars.
#[verifier::external_body]
pub fn signing_key_is_valid(signing_key: &Vec<u8>) -> (r: bool)
    ensures
        r == valid_signing_key(signing_key@),
{
    k256::ecdsa::SigningKey::from_slice(signing_key).is_ok()
}

/// Relies on k256::ecdsa::SigningKey::from_slice, VerifyingKey::from and
/// to_sec1_bytes: the public key is a function of the secret scalar.
#[verifier::external_body]
pub(crate) fn derive_public_key(signing_key: &Vec<u8>) -> (r: Vec<u8>)
    requires
        valid_signing_key(signing_key@),
    ensures
        r@ == public_key_of(signing_key@),
{
    let sk = k256::ecdsa::SigningKey::from_slice(signing_key).unwrap();
    k256::ecdsa::VerifyingKey::from(&sk).to_sec1_bytes().to_vec()
}

/// Whether the bytes form a valid secret scalar whose derived public key
/// is exactly `public_key`.
pub fn keys_match(signing_key: &Vec<u8>, public_key: &Vec<u8>) -> (r: bool)
    ensures
        r == (valid_signing_key(signing_key@) && public_key@ == public_key_of(signing_key@)),
{
    if !signing_key_is_valid(signing_key) {
        return false;
    }
    crate::hash::bytes_eq(&derive_public_key(signing_key), public_key)
}

/// Relies on k256::ecdsa::SigningKey::sign (RFC 6979, deterministic) and
/// Signature::to_vec: a 64-byte signature that depends on the key and the
/// message alone, and that the signer's own verifying key accepts.
#[verifier::external_body]
pub fn sign_message(signing_key: &Vec<u8>, message: &Vec<u8>) -> (r: Vec<u8>)
    requires
        valid_signing_key(signing_key@),
    ensures
        r@ == signature_of(signing_key@, message@),
        r@.len() == 64,
        sig_verifies(public_key_of(signing_key@), message@, r@),
{
    let sk = k256::ecdsa::SigningKey::from_slice(signing_key).unwrap();
    let sig: k256::ecdsa::Signature = sk.sign(message);
    sig.to_vec()
}

/// Relies on k256::ecdsa::VerifyingKey::from_sec1_bytes, Signature::from_slice
/// and Verifier::verify: acceptance is a function of the three byte strings;
/// malformed key or signature bytes are rejected.
#[verifier::external_body]
pub fn verify_signature(public_key: &Vec<u8>, message: &Vec<u8>, signature: &Vec<u8>) -> (r: bool)
    ensures
        r == sig_verifies(public_key@, message@, signature@),
{
    let Ok(pk) = k256::ecdsa::VerifyingKey::from_sec1_bytes(public_key) else {
        return false;
    };
    let Ok(sig) = k256::ecdsa::Signature::from_slice(signature) else {
        return false;
    };
    pk.verify(message, &sig).is_ok()
}

} // verus!
