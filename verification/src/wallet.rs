//! A wallet: a secp256k1 secret key held as plain bytes, and the
//! wallet's current `history` (its per-address nonce).

use vstd::prelude::*;

use crate::key::{Key, SignVerifier};
use crate::sig::{
    derive_public, public_of, random_secret, secret_is_valid, sig_verifies, sign_msg, sign_of,
    valid_secret,
};

verus! {

/// A wallet that holds a private key and its `history`.
pub struct Wallet {
    secret: Vec<u8>,
    history: u64,
}

impl Wallet {
    /// Every wallet holds a well-formed secret key.
    #[verifier::type_invariant]
    pub closed spec fn inv(self) -> bool {
        valid_secret(self.secret@)
    }

    /// The secret key bytes.
    pub closed spec fn spec_secret(&self) -> Seq<u8> {
        self.secret@
    }

    /// The current history (nonce) of the wallet.
    pub closed spec fn spec_history(&self) -> u64 {
        self.history
    }

    /// The current history (nonce) of the wallet.
    pub fn get_history(&self) -> (r: u64)
        ensures
            r == self.spec_history(),
    {
        self.history
    }

    /// Steps the history after a movement or stake was built from this
    /// wallet.
    pub fn advance_history(&mut self)
        requires
            old(self).spec_history() < u64::MAX,
        ensures
            final(self).spec_history() == old(self).spec_history() + 1,
            final(self).spec_secret() == old(self).spec_secret(),
    {
        proof {
            use_type_invariant(&*self);
        }
        self.history = self.history + 1;
    }

    /// The compressed public key that belongs to this wallet.
    pub open spec fn spec_public(&self) -> Seq<u8> {
        public_of(self.spec_secret())
    }

    /// The signature this wallet produces over a message, when the
    /// deterministic ECDSA draw succeeds.
    pub open spec fn spec_sign(&self, data: Seq<char>) -> Option<Seq<u8>> {
        sign_of(self.spec_secret(), data)
    }

    /// Creates a wallet over a fresh random private key.
    pub fn new() -> (r: Self)
        ensures
            r.spec_history() == 0,
    {
        Wallet { secret: random_secret(), history: 0 }
    }

    /// Returns a signature over the given data using the private key.
    /// The signature, when one is produced, verifies under this wallet's
    /// public key.
    pub fn sign_data(&self, data: String) -> (r: Option<Key>)
        ensures
            match r {
                Some(sig) => self.spec_sign(data@) == Some(sig@) && sig_verifies(
                    self.spec_public(),
                    sig@,
                    data@,
                ),
                None => self.spec_sign(data@) is None,
            },
    {
        proof {
            use_type_invariant(self);
        }
        match sign_msg(&self.secret, data.as_str()) {
            Some(sig) => Some(Key(sig)),
            None => None,
        }
    }

    /// Returns the public key of the wallet.
    pub fn get_public(&self) -> (r: Key)
        ensures
            r@ == self.spec_public(),
    {
        proof {
            use_type_invariant(self);
        }
        Key(derive_public(&self.secret))
    }

    /// Returns the private key of the wallet.
    pub fn get_private(&self) -> (r: Key)
        ensures
            r@ == self.spec_secret(),
    {
        let r = Key(self.secret.clone());
        proof {
            assert(r@ =~= self.spec_secret());
        }
        r
    }

    /// Returns a wallet over the given private key and history, or
    /// `None` when the bytes are not a well-formed secret key.
    pub fn from_private(private_key: &Vec<u8>, history: u64) -> (r: Option<Self>)
        ensures
            r is Some <==> valid_secret(private_key@),
            r matches Some(w) ==> w.spec_secret() == private_key@ && w.spec_history() == history,
    {
        if secret_is_valid(private_key) {
            let secret = private_key.clone();
            proof {
                assert(secret@ =~= private_key@);
            }
            Some(Wallet { secret, history })
        } else {
            None
        }
    }
}

impl Clone for Wallet {
    fn clone(&self) -> (r: Self)
        ensures
            r.spec_secret() == self.spec_secret(),
            r.spec_history() == self.spec_history(),
    {
        proof {
            use_type_invariant(self);
        }
        let secret = self.secret.clone();
        proof {
            assert(secret@ =~= self.secret@);
        }
        Wallet { secret, history: self.history }
    }
}

impl SignVerifier for Wallet {
    open spec fn verifier_key(&self) -> Seq<u8> {
        self.spec_public()
    }

    fn verify_signature(&self, signature: &Key, data: String) -> (r: bool) {
        proof {
            use_type_invariant(self);
        }
        let public = derive_public(&self.secret);
        crate::sig::verify_msg(&public, &signature.0, data.as_str())
    }
}

} // verus!
