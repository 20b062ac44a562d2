//! The cryptographic primitives the ledger relies on: BLAKE3 content hashes,
//! Ed25519 key derivation and Ed25519ph signatures with a context string.
use vstd::prelude::*;

use ed25519_dalek::{Digest, Sha512, Signature, SigningKey, VerifyingKey};
use rand::rngs::ThreadRng;

verus! {

#[verifier::external_type_specification]
#[verifier::external_body]
pub struct ExThreadRng(ThreadRng);

/// The BLAKE3 digest of a byte string.
pub uninterp spec fn blake3_of(bytes: Seq<u8>) -> Seq<u8>;

/// The Ed25519 verifying key that belongs to a 32-byte secret key.
pub uninterp spec fn public_key_of(secret: Seq<u8>) -> Seq<u8>;

/// The Ed25519ph signature of the SHA-512 prehash of `msg` under `secret`,
/// with `context` as the signing context.
pub uninterp spec fn signature_of(secret: Seq<u8>, msg: Seq<u8>, context: Seq<u8>) -> Seq<u8>;

/// Whether `sig` is accepted as an Ed25519ph signature of the SHA-512 prehash
/// of `msg`, under `public` and with `context` as the signing context.
pub uninterp spec fn signature_valid(
    public: Seq<u8>,
    msg: Seq<u8>,
    context: Seq<u8>,
    sig: Seq<u8>,
) -> bool;

/// Relies on blake3::hash: the 32-byte digest of the input.
#[verifier::external_body]
pub(crate) fn blake3_hash(bytes: &[u8]) -> (r: [u8; 32])
    ensures
        r@ == blake3_of(bytes@),
{
    *blake3::hash(bytes).as_bytes()
}

/// Relies on ed25519_dalek::SigningKey::generate: a fresh secret key drawn
/// from the random source. Nothing is known of its bytes.
#[verifier::external_body]
pub(crate) fn generate_secret(rng: &mut ThreadRng) -> (r: [u8; 32]) {
    SigningKey::generate(rng).to_bytes()
}

/// Relies on ed25519_dalek::SigningKey::verifying_key: the public key of a
/// secret key, a function of the secret alone.
#[verifier::external_body]
pub(crate) fn public_key(secret: &[u8; 32]) -> (r: [u8; 32])
    ensures
        r@ == public_key_of(secret@),
{
    SigningKey::from_bytes(secret).verifying_key().to_bytes()
}

/// Relies on ed25519_dalek::SigningKey::sign_prehashed: it fails only on a
/// context longer than 255 bytes; otherwise the Ed25519ph signature, which is
/// deterministic and is accepted by verify_prehashed under the matching
/// public key, message and context.
#[verifier::external_body]
pub(crate) fn sign_prehashed(secret: &[u8; 32], msg: &[u8], context: &[u8]) -> (r: Option<
    [u8; 64],
>)
    ensures
        r is Some <==> context@.len() <= 255,
        r matches Some(sig) ==> sig@ == signature_of(secret@, msg@, context@),
        r matches Some(sig) ==> signature_valid(public_key_of(secret@), msg@, context@, sig@),
{
    let key = SigningKey::from_bytes(secret);
    key.sign_prehashed(Sha512::new().chain_update(msg), Some(context)).ok().map(|s| s.to_bytes())
}

/// Relies on ed25519_dalek::VerifyingKey::verify_prehashed: whether the
/// signature is accepted. Bytes that are no curve point are refused by
/// VerifyingKey::from_bytes and count as not accepted.
#[verifier::external_body]
pub(crate) fn verify_prehashed(
    public: &[u8; 32],
    msg: &[u8],
    context: &[u8],
    sig: &[u8; 64],
) -> (r: bool)
    requires
        context@.len() <= 255,
    ensures
        r == signature_valid(public@, msg@, context@, sig@),
{
    match VerifyingKey::from_bytes(public) {
        Ok(key) => key.verify_prehashed(
            Sha512::new().chain_update(msg),
            Some(context),
            &Signature::from_bytes(sig),
        ).is_ok(),
        Err(_) => false,
    }
}

} // verus!
