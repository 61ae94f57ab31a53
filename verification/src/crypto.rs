//! The ledger's hash function and signature scheme.

use blake2::digest::consts::U32;
use blake2::{Blake2b, Digest};
use ed25519_consensus::{Signature, SigningKey, VerificationKey};
use vstd::prelude::*;

verus! {

/// The 32-byte BLAKE2b digest of `data`.
pub uninterp spec fn blake2b_digest(data: Seq<u8>) -> Seq<u8>;

/// The Ed25519 public key of the signing key that grows from `seed`.
pub uninterp spec fn ed25519_public_key(seed: Seq<u8>) -> Seq<u8>;

/// The Ed25519 signature on `message` by the signing key that grows from `seed`.
pub uninterp spec fn ed25519_signature(seed: Seq<u8>, message: Seq<u8>) -> Seq<u8>;

/// Whether `key` is a public key and `signature` is a valid signature on `message` under it.
pub uninterp spec fn ed25519_accepts(key: Seq<u8>, signature: Seq<u8>, message: Seq<u8>) -> bool;

/// Calls `blake2::Blake2b::<U32>::digest`. Claimed of it: the digest is a function of the data.
#[verifier::external_body]
pub(crate) fn blake2b(data: &[u8]) -> (digest: [u8; 32])
    ensures
        digest@ == blake2b_digest(data@),
{
    Blake2b::<U32>::digest(data).into()
}

/// Calls `ed25519_consensus::SigningKey::verification_key` on the key made from `seed`. Claimed of
/// it: the public key is a function of the seed.
#[verifier::external_body]
pub(crate) fn public_key_of(seed: &[u8; 32]) -> (key: [u8; 32])
    ensures
        key@ == ed25519_public_key(seed@),
{
    SigningKey::from(*seed).verification_key().to_bytes()
}

/// Calls `ed25519_consensus::SigningKey::sign` on the key made from `seed`. Claimed of it: the
/// signature is a function of the seed and the message, and the seed's public key accepts it.
#[verifier::external_body]
pub(crate) fn sign_message(seed: &[u8; 32], message: &[u8]) -> (signature: [u8; 64])
    ensures
        signature@ == ed25519_signature(seed@, message@),
        ed25519_accepts(ed25519_public_key(seed@), signature@, message@),
{
    SigningKey::from(*seed).sign(message).to_bytes()
}

/// Calls `ed25519_consensus::VerificationKey::verify` on the key read from `key`. Claimed of it:
/// whether the bytes are a key that accepts the signature is a function of the three arguments.
#[verifier::external_body]
pub(crate) fn verify_message(key: &[u8; 32], signature: &[u8; 64], message: &[u8]) -> (valid: bool)
    ensures
        valid == ed25519_accepts(key@, signature@, message@),
{
    match VerificationKey::try_from(*key) {
        Ok(key) => key.verify(&Signature::from(*signature), message).is_ok(),
        Err(_) => false,
    }
}

} // verus!
