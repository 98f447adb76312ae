//! A standalone public key, used to check signatures made by some other
//! wallet.

use vstd::prelude::*;

use crate::key::{Key, SignVerifier};

verus! {

/// A public key on its own, able to verify signatures.
pub struct PublicAddress {
    /// The compressed public key bytes.
    pub public_key: Key,
}

impl PublicAddress {
    /// A verifier over the given public key.
    pub fn from(key: &Key) -> (r: Self)
        ensures
            r.public_key@ == key@,
    {
        PublicAddress { public_key: key.clone() }
    }

    /// The public key held.
    pub fn get_public(&self) -> (r: Key)
        ensures
            r@ == self.public_key@,
    {
        self.public_key.clone()
    }
}

impl SignVerifier for PublicAddress {
    open spec fn verifier_key(&self) -> Seq<u8> {
        self.public_key@
    }

    fn verify_signature(&self, signature: &Key, data: String) -> (r: bool) {
        crate::sig::verify_msg(&self.public_key.0, &signature.0, data.as_str())
    }
}

} // verus!
