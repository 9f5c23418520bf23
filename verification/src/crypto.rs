//! Digests and signature checks. They are computed by the crates `sha1`,
//! `sha2`, `rsa` and `ed25519-dalek`; what they compute is not proved here,
//! it is named, and the rest of the library speaks of it by these names.

use vstd::prelude::*;
use rsa::pkcs8::DecodePublicKey;
use sha1::Digest;
use crate::signature::{Algorithm, HashAlgorithm, KeyType};

verus! {

/// The SHA-1 digest of `data`.
pub uninterp spec fn sha1(data: Seq<u8>) -> Seq<u8>;

/// The SHA-256 digest of `data`.
pub uninterp spec fn sha256(data: Seq<u8>) -> Seq<u8>;

/// Whether `signature` is an RSA signature, with the padding of PKCS #1
/// v1.5, of a message with the digest `digest`, under the public key that
/// `key` encodes as a DER `SubjectPublicKeyInfo`. `sha256` says which hash
/// function the digest is of: SHA-256, or else SHA-1. False where `key`
/// encodes no RSA key.
pub uninterp spec fn rsa_signature_valid(
    key: Seq<u8>,
    sha256: bool,
    digest: Seq<u8>,
    signature: Seq<u8>,
) -> bool;

/// Whether `signature` is an Ed25519 signature of `message` under the
/// public key `key`, by the strict rules. False where `key` is not the 32
/// bytes of a key or `signature` not 64 bytes.
pub uninterp spec fn ed25519_signature_valid(
    key: Seq<u8>,
    message: Seq<u8>,
    signature: Seq<u8>,
) -> bool;

/// The digest of `data` under `hash`.
pub open spec fn digest_of(hash: HashAlgorithm, data: Seq<u8>) -> Seq<u8> {
    match hash {
        HashAlgorithm::Sha1 => sha1(data),
        HashAlgorithm::Sha256 => sha256(data),
    }
}

/// Whether `signature` signs `data` under `key` with `algorithm`. With RSA
/// the digest of the data is signed; with Ed25519 the digest is the message
/// that is signed.
pub open spec fn signature_valid(
    algorithm: Algorithm,
    key: Seq<u8>,
    data: Seq<u8>,
    signature: Seq<u8>,
) -> bool {
    let digest = digest_of(algorithm.hash(), data);
    match algorithm.key_type() {
        KeyType::Rsa => rsa_signature_valid(
            key,
            algorithm.hash() == HashAlgorithm::Sha256,
            digest,
            signature,
        ),
        KeyType::Ed25519 => ed25519_signature_valid(key, digest, signature),
    }
}

/// `sha1::Sha1::digest`: the SHA-1 digest of the data. The contract gives
/// the result its name and claims nothing else of it.
#[verifier::external_body]
fn sha1_digest(data: &[u8]) -> (r: Vec<u8>)
    ensures
        r@ == sha1(data@),
{
    sha1::Sha1::digest(data).to_vec()
}

/// `sha2::Sha256::digest`: the SHA-256 digest of the data. The contract
/// gives the result its name and claims nothing else of it.
#[verifier::external_body]
fn sha256_digest(data: &[u8]) -> (r: Vec<u8>)
    ensures
        r@ == sha256(data@),
{
    sha2::Sha256::digest(data).to_vec()
}

/// `rsa::RsaPublicKey::verify` with the scheme `rsa::Pkcs1v15Sign` for
/// SHA-256 or SHA-1, on the key that
/// `rsa::RsaPublicKey::from_public_key_der` reads from `key`. The contract
/// names the answer: true where the crate accepts the signature, false where
/// it rejects the signature or the key.
#[verifier::external_body]
fn rsa_verify(key: &[u8], sha256: bool, digest: &[u8], signature: &[u8]) -> (r: bool)
    ensures
        r == rsa_signature_valid(key@, sha256, digest@, signature@),
{
    let scheme = if sha256 {
        rsa::Pkcs1v15Sign::new::<sha2::Sha256>()
    } else {
        rsa::Pkcs1v15Sign::new::<sha1::Sha1>()
    };
    match rsa::RsaPublicKey::from_public_key_der(key) {
        Ok(public_key) => public_key.verify(scheme, digest, signature).is_ok(),
        Err(_) => false,
    }
}

/// `ed25519_dalek::VerifyingKey::verify_strict`, on the key and the
/// signature that `VerifyingKey::try_from` and `Signature::from_slice` read
/// from the bytes. The contract names the answer: true where the crate
/// accepts the signature, false where it rejects the signature, the key or
/// the length of either.
#[verifier::external_body]
fn ed25519_verify(key: &[u8], message: &[u8], signature: &[u8]) -> (r: bool)
    ensures
        r == ed25519_signature_valid(key@, message@, signature@),
{
    match (
        ed25519_dalek::VerifyingKey::try_from(key),
        ed25519_dalek::Signature::from_slice(signature),
    ) {
        (Ok(public_key), Ok(sig)) => public_key.verify_strict(message, &sig).is_ok(),
        _ => false,
    }
}

/// The digest of `data` under `hash`.
pub fn digest(hash: HashAlgorithm, data: &[u8]) -> (r: Vec<u8>)
    ensures
        r@ == digest_of(hash, data@),
{
    match hash {
        HashAlgorithm::Sha1 => sha1_digest(data),
        HashAlgorithm::Sha256 => sha256_digest(data),
    }
}

/// Whether `signature` signs `data` under `key` with `algorithm`.
pub fn verify_signature(algorithm: Algorithm, key: &[u8], data: &[u8], signature: &[u8]) -> (r:
    bool)
    ensures
        r == signature_valid(algorithm, key@, data@, signature@),
{
    let hashed = digest(algorithm.hash_algorithm(), data);
    match algorithm {
        Algorithm::RsaSha1 => rsa_verify(key, false, hashed.as_slice(), signature),
        Algorithm::RsaSha256 => rsa_verify(key, true, hashed.as_slice(), signature),
        Algorithm::Ed25519Sha256 => ed25519_verify(key, hashed.as_slice(), signature),
    }
}

} // verus!
