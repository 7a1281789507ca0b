use vstd::prelude::*;

use k256::ecdsa::signature::{Signer, Verifier};

verus! {

/// Length of a secp256k1 secret scalar.
pub const SECRET_BYTES: usize = 32;

/// Keccak-256 digest of `data`.
pub uninterp spec fn keccak_of(data: Seq<u8>) -> Seq<u8>;

/// Whether `SigningKey::from_slice` takes the bytes as a secret scalar (a
/// non-zero value below the group order).
pub uninterp spec fn is_secret_scalar(b: Seq<u8>) -> bool;

/// Uncompressed SEC1 encoding of the secp256k1 public key of a secret.
pub uninterp spec fn public_key_for(secret: Seq<u8>) -> Seq<u8>;

/// The deterministic (RFC 6979) secp256k1 ECDSA signature of a message.
pub uninterp spec fn ecdsa_signature(secret: Seq<u8>, msg: Seq<u8>) -> Seq<u8>;

/// Whether `sig` is a valid secp256k1 ECDSA signature of `msg` under the
/// SEC1-encoded public key `public_key`.
pub uninterp spec fn ecdsa_accepts(public_key: Seq<u8>, msg: Seq<u8>, sig: Seq<u8>) -> bool;

/// A secp256k1 key pair: the secret scalar and the uncompressed SEC1
/// encoding of the public key.
#[derive(Debug, Clone)]
pub struct Keypair {
    pub signing_key: Vec<u8>,
    pub verifying_key: Vec<u8>,
}

#[derive(Debug, Clone, PartialEq, Eq)]
pub enum CryptoError {
    KeygenError(String),
    SignError(String),
    InvalidSignature,
}

/// Relies on `sha3::Keccak256` (`Digest::digest`): the digest depends on the
/// input bytes alone.
#[verifier::external_body]
pub(crate) fn keccak256(data: &[u8]) -> (r: [u8; 32])
    ensures
        r@ == keccak_of(data@),
{
    <sha3::Keccak256 as sha3::Digest>::digest(data).into()
}

/// Relies on `k256::ecdsa::SigningKey::random` with the operating system's
/// generator: some non-zero scalar, as its 32 bytes (`to_bytes`), of which
/// nothing more is known.
#[verifier::external_body]
fn random_secret() -> (r: Vec<u8>)
    ensures
        r@.len() == SECRET_BYTES,
        is_secret_scalar(r@),
{
    k256::ecdsa::SigningKey::random(&mut rand::rngs::OsRng).to_bytes().to_vec()
}

/// Relies on `k256::ecdsa::SigningKey::verifying_key`, after reading the bytes
/// with `SigningKey::from_slice`: for a secret scalar, its public key encoded
/// uncompressed.
#[verifier::external_body]
fn public_key_of(secret: &[u8]) -> (r: Option<Vec<u8>>)
    ensures
        r is Some <==> is_secret_scalar(secret@),
        r matches Some(p) ==> p@ == public_key_for(secret@),
{
    match k256::ecdsa::SigningKey::from_slice(secret) {
        Ok(key) => Some(key.verifying_key().to_encoded_point(false).as_bytes().to_vec()),
        Err(_) => None,
    }
}

/// Relies on `Signer::try_sign` of `k256::ecdsa::SigningKey`: when the bytes
/// are a valid secret scalar and signing succeeds, the deterministic signature
/// as 64 bytes.
#[verifier::external_body]
fn sign_bytes(secret: &[u8], msg: &[u8]) -> (r: Option<Vec<u8>>)
    ensures
        !is_secret_scalar(secret@) ==> r is None,
        r matches Some(s) ==> s@ == ecdsa_signature(secret@, msg@),
{
    let key = match k256::ecdsa::SigningKey::from_slice(secret) {
        Ok(key) => key,
        Err(_) => return None,
    };
    let sig: Result<k256::ecdsa::Signature, _> = key.try_sign(msg);
    match sig {
        Ok(sig) => Some(sig.to_bytes().to_vec()),
        Err(_) => None,
    }
}

/// Relies on `Verifier::verify` of `k256::ecdsa::VerifyingKey`, after reading
/// the key as SEC1 bytes and the signature as 64 bytes; unreadable input is
/// no valid signature.
#[verifier::external_body]
fn verify_bytes(public_key: &[u8], msg: &[u8], sig: &[u8]) -> (r: bool)
    ensures
        r == ecdsa_accepts(public_key@, msg@, sig@),
{
    let key = match k256::ecdsa::VerifyingKey::from_sec1_bytes(public_key) {
        Ok(key) => key,
        Err(_) => return false,
    };
    match k256::ecdsa::Signature::from_slice(sig) {
        Ok(sig) => key.verify(msg, &sig).is_ok(),
        Err(_) => false,
    }
}

/// A fresh key pair from the operating system's generator.
pub fn generate_keypair() -> (r: Result<Keypair, CryptoError>)
    ensures
        r is Ok,
        r matches Ok(kp) ==> kp.signing_key@.len() == SECRET_BYTES && kp.verifying_key@ == public_key_for(
            kp.signing_key@,
        ),
{
    let secret = random_secret();
    match public_key_of(secret.as_slice()) {
        Some(public_key) => Ok(Keypair { signing_key: secret, verifying_key: public_key }),
        None => Err(CryptoError::KeygenError("generated secret was rejected".to_owned())),
    }
}

/// Node identifier of a public key: the Keccak-256 digest of its uncompressed
/// encoding without the leading tag byte.
pub fn node_id_from_pubkey(verifying_key: &[u8]) -> (r: [u8; 32])
    requires
        verifying_key@.len() >= 1,
    ensures
        r@ == keccak_of(verifying_key@.subrange(1, verifying_key@.len() as int)),
{
    let mut body: Vec<u8> = Vec::new();
    let mut i: usize = 1;
    while i < verifying_key.len()
        invariant
            1 <= i <= verifying_key@.len(),
            body@ == verifying_key@.subrange(1, i as int),
        decreases verifying_key@.len() - i,
    {
        body.push(verifying_key[i]);
        i = i + 1;
        assert(body@ =~= verifying_key@.subrange(1, i as int));
    }
    keccak256(body.as_slice())
}

/// Signs a 32-byte message digest.
pub fn sign_message(signing_key: &[u8], msg_hash: &[u8; 32]) -> (r: Result<Vec<u8>, CryptoError>)
    ensures
        !is_secret_scalar(signing_key@) ==> r matches Err(CryptoError::SignError(_)),
        r matches Ok(s) ==> s@ == ecdsa_signature(signing_key@, msg_hash@),
{
    match sign_bytes(signing_key, msg_hash.as_slice()) {
        Some(sig) => Ok(sig),
        None => Err(CryptoError::SignError("signing failed".to_owned())),
    }
}

/// Checks a signature over a 32-byte message digest.
pub fn verify_signature(verifying_key: &[u8], msg_hash: &[u8; 32], signature: &[u8]) -> (r: bool)
    ensures
        r == ecdsa_accepts(verifying_key@, msg_hash@, signature@),
{
    verify_bytes(verifying_key, msg_hash.as_slice(), signature)
}

} // verus!
