//! secp256k1 ECDSA signing and verification, from an outside crate behind
//! trusted wrappers. A secret key, a public key and a signature are all
//! carried as plain byte vectors; messages are strings and are digested
//! with keccak-256 before signing, as the chain's peers expect.

use k256::ecdsa::signature::digest::Digest;
use k256::ecdsa::signature::{DigestSigner, DigestVerifier};
use k256::ecdsa::{Signature, SigningKey, VerifyingKey};
use rand_core::OsRng;
use sha3::Keccak256;
use vstd::prelude::*;

verus! {

/// Whether a byte string is a well-formed secp256k1 secret key
/// (a big-endian scalar in `[1, n)`).
pub uninterp spec fn valid_secret(s: Seq<u8>) -> bool;

/// The compressed SEC1 encoding of the public key that belongs to a
/// secret key.
pub uninterp spec fn public_of(s: Seq<u8>) -> Seq<u8>;

/// The deterministic (RFC 6979) ECDSA signature of a message under a
/// secret key, over the message's keccak-256 digest; `None` on the
/// astronomically rare rejected ephemeral scalar.
pub uninterp spec fn sign_of(secret: Seq<u8>, msg: Seq<char>) -> Option<Seq<u8>>;

/// Whether a signature verifies a message under a public key. False
/// whenever the public key or the signature bytes do not parse.
pub uninterp spec fn sig_verifies(pk: Seq<u8>, sig: Seq<u8>, msg: Seq<char>) -> bool;

/// Relies on `k256::ecdsa::SigningKey::random` with the operating
/// system's entropy: the 32 returned bytes are a well-formed secret key.
/// Nothing else can be said of a random result.
#[verifier::external_body]
pub(crate) fn random_secret() -> (r: Vec<u8>)
    ensures
        valid_secret(r@),
        r@.len() == 32,
{
    SigningKey::random(&mut OsRng).to_bytes().to_vec()
}

/// Relies on `k256::ecdsa::SigningKey::from_bytes`: it accepts exactly
/// the well-formed secret keys.
#[verifier::external_body]
pub(crate) fn secret_is_valid(s: &Vec<u8>) -> (r: bool)
    ensures
        r == valid_secret(s@),
{
    SigningKey::from_bytes(s).is_ok()
}

/// Relies on `k256::ecdsa::SigningKey::verifying_key` and
/// `VerifyingKey::to_bytes`: the compressed public key of a well-formed
/// secret key, a function of the secret alone.
#[verifier::external_body]
pub(crate) fn derive_public(secret: &Vec<u8>) -> (r: Vec<u8>)
    requires
        valid_secret(secret@),
    ensures
        r@ == public_of(secret@),
{
    let sk = SigningKey::from_bytes(secret).unwrap();
    sk.verifying_key().to_bytes().to_vec()
}

/// Relies on `k256::ecdsa::SigningKey`'s `DigestSigner` with a keccak-256
/// digest: RFC 6979 makes the signature a function of the secret and the
/// message alone, and a signature it produces verifies under the matching
/// public key (`VerifyingKey`'s `DigestVerifier` with the same digest).
#[verifier::external_body]
pub(crate) fn sign_msg(secret: &Vec<u8>, msg: &str) -> (r: Option<Vec<u8>>)
    requires
        valid_secret(secret@),
    ensures
        match r {
            Some(sig) => sign_of(secret@, msg@) == Some(sig@) && sig_verifies(
                public_of(secret@),
                sig@,
                msg@,
            ),
            None => sign_of(secret@, msg@) is None,
        },
{
    let sk = SigningKey::from_bytes(secret).unwrap();
    let digest = Keccak256::new_with_prefix(msg.as_bytes());
    let sig: Result<Signature, _> = sk.try_sign_digest(digest);
    match sig {
        Ok(sig) => Some(sig.to_vec()),
        Err(_) => None,
    }
}

/// Relies on `k256::ecdsa::VerifyingKey`'s `DigestVerifier` with a
/// keccak-256 digest: verification is a function of the key, signature
/// and message bytes alone. Unparseable keys or signatures verify nothing.
#[verifier::external_body]
pub(crate) fn verify_msg(pk: &Vec<u8>, sig: &Vec<u8>, msg: &str) -> (r: bool)
    ensures
        r == sig_verifies(pk@, sig@, msg@),
{
    let key = match VerifyingKey::from_sec1_bytes(pk) {
        Ok(key) => key,
        Err(_) => return false,
    };
    let sig = match Signature::try_from(sig.as_slice()) {
        Ok(sig) => sig,
        Err(_) => return false,
    };
    let digest = Keccak256::new_with_prefix(msg.as_bytes());
    key.verify_digest(digest, &sig).is_ok()
}

} // verus!
