//! The Ed25519 operations the ledger relies on, from `ed25519_dalek`.
//! Keys and signatures travel through this crate as plain byte arrays.
use vstd::prelude::*;
use ed25519_dalek::{Signature, Signer, SigningKey, Verifier, VerifyingKey};

verus! {

/// Whether the 32 bytes are the compressed encoding of a curve point, i.e.
/// whether `ed25519_dalek::VerifyingKey::from_bytes` accepts them.
pub uninterp spec fn spec_key_decompresses(key: Seq<u8>) -> bool;

/// Whether `ed25519_dalek`'s (non-strict) verification accepts `signature`
/// over `message` under the public key encoded by `key`.
pub uninterp spec fn spec_signature_verifies(key: Seq<u8>, message: Seq<u8>, signature: Seq<u8>) -> bool;

/// The public key that `ed25519_dalek` derives from a 32-byte secret key.
pub uninterp spec fn spec_public_key_of(secret: Seq<u8>) -> Seq<u8>;

/// Calls `VerifyingKey::from_bytes` and reports whether it succeeded.
/// Trusted: the answer is the named predicate `spec_key_decompresses` of the bytes.
#[verifier::external_body]
pub(crate) fn key_decompresses(key: &[u8; 32]) -> (ok: bool)
    ensures
        ok == spec_key_decompresses(key@),
{
    VerifyingKey::from_bytes(key).is_ok()
}

/// Calls `Verifier::verify` of `VerifyingKey` on the key decoded from `key`
/// (by `VerifyingKey::from_bytes`) and the signature decoded from `signature`
/// (by the infallible `Signature::from_bytes`). Trusted: it answers `true`
/// exactly when the key decodes and the verification succeeds.
#[verifier::external_body]
pub(crate) fn signature_verifies(key: &[u8; 32], message: &[u8], signature: &[u8; 64]) -> (ok: bool)
    ensures
        ok == (spec_key_decompresses(key@) && spec_signature_verifies(key@, message@, signature@)),
{
    match VerifyingKey::from_bytes(key) {
        Ok(vk) => vk.verify(message, &Signature::from_bytes(signature)).is_ok(),
        Err(_) => false,
    }
}

/// Calls `SigningKey::from_bytes` and `verifying_key`, returning the
/// compressed public key. Trusted: the result is the named derivation
/// `spec_public_key_of` of the secret, and it decodes: it is the compression
/// of a curve point (`EdwardsPoint::compress`), whose y coordinate
/// `CompressedEdwardsY::decompress` accepts.
#[verifier::external_body]
pub(crate) fn public_key_of(secret: &[u8; 32]) -> (public: [u8; 32])
    ensures
        public@ == spec_public_key_of(secret@),
        spec_key_decompresses(public@),
{
    SigningKey::from_bytes(secret).verifying_key().to_bytes()
}

/// Fills 32 bytes from the operating system's random source with
/// `rand_core::RngCore::try_fill_bytes` on `rand_core::OsRng`; these bytes are
/// a secret key, as `SigningKey::generate` would take them. `None` when the
/// operating system supplies no randomness. Nothing is promised of the bytes:
/// they are random.
#[verifier::external_body]
pub(crate) fn fresh_secret_key() -> (secret: Option<[u8; 32]>) {
    let mut bytes = [0u8; 32];
    match rand_core::RngCore::try_fill_bytes(&mut rand_core::OsRng, &mut bytes) {
        Ok(()) => Some(bytes),
        Err(_) => None,
    }
}

/// Calls `Signer::sign` of the `SigningKey` built by `SigningKey::from_bytes`
/// from `secret` (its `try_sign` never fails) and returns the signature's
/// bytes. Trusted: an Ed25519 signature made with a secret key verifies, under
/// the public key derived from that key, over the message signed.
#[verifier::external_body]
pub(crate) fn sign(secret: &[u8; 32], message: &[u8]) -> (signature: [u8; 64])
    ensures
        spec_signature_verifies(spec_public_key_of(secret@), message@, signature@),
{
    SigningKey::from_bytes(secret).sign(message).to_bytes()
}

} // verus!
