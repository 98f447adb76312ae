//! Keccak-256 hashing. The digest itself comes from an outside crate and
//! is only named here; everything that feeds it and everything that renders
//! it as hex is verified.

use sha3::{Digest, Keccak256};
use vstd::prelude::*;

use crate::text::{hex_of, to_hex};

verus! {

/// The keccak-256 digest of the UTF-8 bytes of a character sequence.
/// The digest depends on the input alone.
pub uninterp spec fn keccak_of(s: Seq<char>) -> Seq<u8>;

/// The canonical on-chain rendering of a digest: lowercase hex.
pub open spec fn digest_of(s: Seq<char>) -> Seq<char> {
    hex_of(keccak_of(s))
}

/// Relies on `sha3::Keccak256` (keccak-256 as the chain's peers use it,
/// not the padded NIST SHA3-256):
/// hashing the string's bytes gives a 32-byte digest that depends on the
/// input alone.
#[verifier::external_body]
fn keccak_bytes(s: &str) -> (r: Vec<u8>)
    ensures
        r@ == keccak_of(s@),
        r@.len() == 32,
{
    Keccak256::digest(s.as_bytes()).to_vec()
}

/// Keccak-256 of a string, rendered as 64 lowercase hex characters.
pub fn keccak_hex(s: &str) -> (r: String)
    ensures
        r@ == digest_of(s@),
        r@.len() == 64,
{
    let bytes = keccak_bytes(s);
    proof {
        crate::text::lemma_hex_of_len(bytes@);
    }
    to_hex(&bytes)
}

} // verus!
