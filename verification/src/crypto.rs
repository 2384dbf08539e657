//! Trusted boundary to the outside cryptography and identifier crates.
//!
//! Each function here wraps one outside operation.  Digests and Ed25519
//! results are functions of their inputs alone, so they are given names that
//! contracts elsewhere can speak of; random results (key generation, RSA
//! encryption, nonces, fresh identifiers) get no such name.

use vstd::prelude::*;

use crate::ids::Uid;
use ed25519_dalek::Signer;
use rand::Rng;
use rsa::pkcs8::DecodePublicKey;
use sha1::Digest;

verus! {

/// The SHA-1 digest of a byte string.
pub uninterp spec fn sha1_of(b: Seq<u8>) -> Seq<u8>;

/// Whether `sig` is a valid Ed25519 signature by the key `pk` over `msg`.
pub uninterp spec fn ed25519_valid(pk: Seq<u8>, msg: Seq<u8>, sig: Seq<u8>) -> bool;

/// The Ed25519 signature by the private key `sk` over `msg` (signing is
/// deterministic).
pub uninterp spec fn ed25519_signature(sk: Seq<u8>, msg: Seq<u8>) -> Seq<u8>;

/// The public half of the Ed25519 private key `sk`.
pub uninterp spec fn ed25519_public_of(sk: Seq<u8>) -> Seq<u8>;

/// Relies on `sha1::Sha1` (`update`, `finalize`): a 20-byte digest that is a
/// function of the input bytes alone.
#[verifier::external_body]
pub fn sha1_hash(b: &[u8]) -> (r: Vec<u8>)
    ensures
        r@ == sha1_of(b@),
        r@.len() == 20,
{
    let mut hasher = sha1::Sha1::new();
    hasher.update(b);
    hasher.finalize().to_vec()
}

/// Relies on `ed25519_dalek::VerifyingKey::{from_bytes, verify_strict}` and
/// `Signature::from_bytes`: whether `sig` is a valid signature by `pk` over
/// `msg`; `false` when the key or signature bytes are not well-formed.
#[verifier::external_body]
pub fn ed25519_verify(pk: &[u8], msg: &[u8], sig: &[u8]) -> (r: bool)
    ensures
        r == ed25519_valid(pk@, msg@, sig@),
{
    let pk_arr: &[u8; 32] = match pk.try_into() {
        Ok(a) => a,
        Err(_) => return false,
    };
    let key = match ed25519_dalek::VerifyingKey::from_bytes(pk_arr) {
        Ok(k) => k,
        Err(_) => return false,
    };
    let sig_arr: &[u8; 64] = match sig.try_into() {
        Ok(a) => a,
        Err(_) => return false,
    };
    let sig = ed25519_dalek::Signature::from_bytes(sig_arr);
    key.verify_strict(msg, &sig).is_ok()
}

/// Relies on `ed25519_dalek::SigningKey::{from_bytes, sign}`: the 64-byte
/// signature is a function of key and message alone, and verifies against
/// the key's public half.
#[verifier::external_body]
pub fn ed25519_sign(sk: &[u8], msg: &[u8]) -> (r: Vec<u8>)
    requires
        sk@.len() == 32,
    ensures
        r@ == ed25519_signature(sk@, msg@),
        r@.len() == 64,
        ed25519_valid(ed25519_public_of(sk@), msg@, r@),
{
    let sk_arr: [u8; 32] = sk.try_into().unwrap();
    let key = ed25519_dalek::SigningKey::from_bytes(&sk_arr);
    key.sign(msg).to_bytes().to_vec()
}

/// Relies on `ed25519_dalek::SigningKey::verifying_key`: the public half is
/// a function of the private key alone.
#[verifier::external_body]
pub fn ed25519_verifying_key(sk: &[u8]) -> (r: Vec<u8>)
    requires
        sk@.len() == 32,
    ensures
        r@ == ed25519_public_of(sk@),
        r@.len() == 32,
{
    let sk_arr: [u8; 32] = sk.try_into().unwrap();
    let key = ed25519_dalek::SigningKey::from_bytes(&sk_arr);
    key.verifying_key().to_bytes().to_vec()
}

/// Relies on `ed25519_dalek::SigningKey::generate` with `rand::rngs::OsRng`:
/// a fresh key pair (private half, public half).  The pair is random, so
/// nothing is assumed beyond the halves belonging together.
#[verifier::external_body]
pub fn ed25519_generate() -> (r: (Vec<u8>, Vec<u8>))
    ensures
        r.0@.len() == 32,
        r.1@.len() == 32,
        r.1@ == ed25519_public_of(r.0@),
{
    let key = ed25519_dalek::SigningKey::generate(&mut rand::rngs::OsRng);
    (key.to_bytes().to_vec(), key.verifying_key().to_bytes().to_vec())
}

/// Whether PKCS#1 v1.5 encryption under the RSA public key encoded by
/// `der` accepts a plaintext of `msg_len` bytes: the DER must parse as an
/// RSA public key and the plaintext must fit the modulus.  Both checks are
/// deterministic in the DER bytes and the length alone.
pub uninterp spec fn rsa_pkcs1v15_accepts(der: Seq<u8>, msg_len: nat) -> bool;

/// Relies on `rsa::RsaPublicKey::{from_public_key_der, encrypt}` with
/// PKCS#1 v1.5 padding and `OsRng`: the ciphertext is randomized, so
/// nothing is assumed of it, but whether encryption succeeds depends only
/// on the key bytes and the plaintext length.
#[verifier::external_body]
pub fn rsa_encrypt_pkcs1v15(recipient_der: &[u8], plaintext: &[u8]) -> (r: Result<Vec<u8>, ()>)
    ensures
        r is Ok <==> rsa_pkcs1v15_accepts(recipient_der@, plaintext@.len()),
{
    let key = match rsa::RsaPublicKey::from_public_key_der(recipient_der) {
        Ok(k) => k,
        Err(_) => return Err(()),
    };
    match key.encrypt(&mut rand::rngs::OsRng, rsa::Pkcs1v15Encrypt, plaintext) {
        Ok(ct) => Ok(ct),
        Err(_) => Err(()),
    }
}

/// Relies on `uuid::Uuid::new_v4` and `as_u64_pair`: a fresh random
/// identifier whose version nibble is 4; the other bits are random.
#[verifier::external_body]
pub fn uid_new_v4() -> (r: Uid)
    ensures
        (r.hi >> 12u64) & 0xf == 4,
{
    let u = uuid::Uuid::new_v4();
    let (hi, lo) = u.as_u64_pair();
    Uid { hi, lo }
}

/// Relies on `rand::rngs::OsRng` (`Rng::gen`): a fresh random 32-bit value;
/// nothing is assumed of it.
#[verifier::external_body]
pub fn random_i32() -> i32 {
    rand::rngs::OsRng.gen()
}

} // verus!
