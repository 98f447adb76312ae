//! An opaque byte string standing for a compressed public key or a
//! signature, with its canonical string form and its on-chain address
//! (the keccak-256 of that form).

use vstd::prelude::*;

use crate::digest::{digest_of, keccak_hex};
use crate::sig::sig_verifies;
use crate::text::{bytes_to_dec_str, key_str};

verus! {

/// A byte string: a compressed secp256k1 public key or an ECDSA
/// signature, depending on context.
pub struct Key(pub Vec<u8>);

impl View for Key {
    type V = Seq<u8>;

    open spec fn view(&self) -> Seq<u8> {
        self.0@
    }
}

/// The on-chain address of a public key: keccak-256 of its canonical
/// string form, as lowercase hex.
pub open spec fn address_of(key: Seq<u8>) -> Seq<char> {
    digest_of(key_str(key))
}

impl Clone for Key {
    fn clone(&self) -> (r: Self)
        ensures
            r@ == self@,
    {
        let r = Key(self.0.clone());
        proof {
            assert(r@ =~= self@);
        }
        r
    }
}

impl PartialEq for Key {
    fn eq(&self, other: &Self) -> (r: bool) {
        let r = self.0 == other.0;
        proof {
            if r {
                assert(self@ =~= other@);
            } else {
                assert(self@ != other@);
            }
        }
        r
    }
}

impl Eq for Key {

}

impl vstd::std_specs::cmp::PartialEqSpecImpl for Key {
    open spec fn obeys_eq_spec() -> bool {
        true
    }

    open spec fn eq_spec(&self, other: &Self) -> bool {
        self@ == other@
    }
}

impl Key {
    /// The canonical string form: the bytes as space-joined decimal
    /// numbers.
    pub fn to_text(&self) -> (r: String)
        ensures
            r@ == key_str(self@),
    {
        bytes_to_dec_str(&self.0)
    }

    /// The on-chain address: keccak-256 of the canonical string form.
    pub fn hash_it(&self) -> (r: String)
        ensures
            r@ == address_of(self@),
            r@.len() == 64,
    {
        let text = self.to_text();
        keccak_hex(text.as_str())
    }
}

/// Something that can check a signature over a message: a wallet (by its
/// own public key) or a standalone public address.
pub trait SignVerifier {
    /// The public key bytes the implementor checks against.
    spec fn verifier_key(&self) -> Seq<u8>;

    /// Whether `signature` signs `data` under the implementor's key.
    fn verify_signature(&self, signature: &Key, data: String) -> (r: bool)
        ensures
            r == sig_verifies(self.verifier_key(), signature@, data@),
    ;
}

} // verus!
