//! Ed25519 keys and signatures over byte sequences.
use vstd::prelude::*;
use ed25519_dalek::Signer;

verus! {

/// The width of an Ed25519 secret key and of a public key.
pub const KEY_SIZE: usize = 32;

/// The width of an Ed25519 signature.
pub const SIGNATURE_SIZE: usize = 64;

/// The Ed25519 public key that belongs to a 32-byte secret key.
pub uninterp spec fn ed25519_public_key_of(secret: Seq<u8>) -> Seq<u8>;

/// The (deterministic) Ed25519 signature of `msg` under a 32-byte secret key.
pub uninterp spec fn ed25519_signature_of(secret: Seq<u8>, msg: Seq<u8>) -> Seq<u8>;

/// Whether `sig` is a valid strict Ed25519 signature of `msg` under `public`.
pub uninterp spec fn ed25519_verifies(public: Seq<u8>, msg: Seq<u8>, sig: Seq<u8>) -> bool;

/// Relies on ed25519_dalek::SigningKey::from_bytes and `verifying_key().to_bytes()`:
/// the 32-byte public key of a secret key.
#[verifier::external_body]
pub(crate) fn public_key(secret: &[u8]) -> (pk: Vec<u8>)
    requires
        secret@.len() == KEY_SIZE,
    ensures
        pk@ == ed25519_public_key_of(secret@),
        pk@.len() == KEY_SIZE,
{
    let secret: &[u8; 32] = secret.try_into().unwrap();
    ed25519_dalek::SigningKey::from_bytes(secret).verifying_key().to_bytes().to_vec()
}

/// Relies on ed25519_dalek's `Signer::sign` for SigningKey: a 64-byte signature,
/// deterministic in key and message, which verifies under the key's public key.
#[verifier::external_body]
pub(crate) fn sign(secret: &[u8], msg: &[u8]) -> (sig: Vec<u8>)
    requires
        secret@.len() == KEY_SIZE,
    ensures
        sig@ == ed25519_signature_of(secret@, msg@),
        sig@.len() == SIGNATURE_SIZE,
        ed25519_verifies(ed25519_public_key_of(secret@), msg@, sig@),
{
    let secret: &[u8; 32] = secret.try_into().unwrap();
    ed25519_dalek::SigningKey::from_bytes(secret).sign(msg).to_bytes().to_vec()
}

/// Relies on ed25519_dalek::VerifyingKey::from_bytes and `verify_strict`: a key
/// that does not decode verifies nothing.
#[verifier::external_body]
pub(crate) fn verify(public: &[u8], msg: &[u8], sig: &[u8]) -> (ok: bool)
    requires
        public@.len() == KEY_SIZE,
        sig@.len() == SIGNATURE_SIZE,
    ensures
        ok == ed25519_verifies(public@, msg@, sig@),
{
    let public: &[u8; 32] = public.try_into().unwrap();
    let sig: &[u8; 64] = sig.try_into().unwrap();
    match ed25519_dalek::VerifyingKey::from_bytes(public) {
        Ok(key) => key.verify_strict(msg, &ed25519_dalek::Signature::from_bytes(sig)).is_ok(),
        Err(_) => false,
    }
}

} // verus!
