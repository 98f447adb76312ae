//! A transaction: a tagged record with three variants, its canonical
//! form, its self-hash and its self-verification.

use vstd::prelude::*;
use vstd::string::StringExecFns;

use crate::digest::{digest_of, keccak_hex};
use crate::errors::TxError;
use crate::key::{address_of, Key};
use crate::sig::sig_verifies;
use crate::text::{bytes_to_json, dec_of, json_bytes, key_str, u64_to_dec};

verus! {

/// A value transfer, a forger reward, or a stake.
pub enum Transaction {
    MOVEMENT {
        author_public_key: Key,
        signature: Key,
        from_address: String,
        to_address: String,
        ammount: u64,
        hash: String,
        history: u64,
    },
    COINBASE { to_address: String, ammount: u64, hash: String },
    STAKE {
        author_public_key: Key,
        signature: Key,
        from_address: String,
        ammount: u64,
        hash: String,
        history: u64,
    },
}

/// The mathematical shadow of a `Transaction`: every field by value.
pub enum TxV {
    Movement {
        author: Seq<u8>,
        signature: Seq<u8>,
        from: Seq<char>,
        to: Seq<char>,
        ammount: u64,
        hash: Seq<char>,
        history: u64,
    },
    Coinbase { to: Seq<char>, ammount: u64, hash: Seq<char> },
    Stake {
        author: Seq<u8>,
        signature: Seq<u8>,
        from: Seq<char>,
        ammount: u64,
        hash: Seq<char>,
        history: u64,
    },
}

impl View for Transaction {
    type V = TxV;

    open spec fn view(&self) -> TxV {
        match self {
            Transaction::MOVEMENT {
                author_public_key,
                signature,
                from_address,
                to_address,
                ammount,
                hash,
                history,
            } => TxV::Movement {
                author: author_public_key@,
                signature: signature@,
                from: from_address@,
                to: to_address@,
                ammount: *ammount,
                hash: hash@,
                history: *history,
            },
            Transaction::COINBASE { to_address, ammount, hash } => TxV::Coinbase {
                to: to_address@,
                ammount: *ammount,
                hash: hash@,
            },
            Transaction::STAKE {
                author_public_key,
                signature,
                from_address,
                ammount,
                hash,
                history,
            } => TxV::Stake {
                author: author_public_key@,
                signature: signature@,
                from: from_address@,
                ammount: *ammount,
                hash: hash@,
                history: *history,
            },
        }
    }
}

impl DeepView for Transaction {
    type V = TxV;

    open spec fn deep_view(&self) -> TxV {
        self.view()
    }
}

impl TxV {
    /// The canonical form that is hashed: every field but the signature
    /// and the stored hash, in declaration order.
    pub open spec fn canon(self) -> Seq<char> {
        match self {
            TxV::Movement { author, from, to, ammount, history, .. } => key_str(author) + from + to
                + dec_of(ammount as nat) + dec_of(history as nat),
            TxV::Coinbase { to, ammount, .. } => to + dec_of(ammount as nat),
            TxV::Stake { author, from, ammount, history, .. } => key_str(author) + from + dec_of(
                ammount as nat,
            ) + dec_of(history as nat),
        }
    }

    /// The deterministic JSON rendering that a block's hash covers: the
    /// variant as the outer tag, every field in declaration order, keys
    /// as byte arrays, the signature and stored hash included. The text
    /// fields are hex strings and render verbatim.
    pub open spec fn json(self) -> Seq<char> {
        match self {
            TxV::Movement { author, signature, from, to, ammount, hash, history } => (
            "{\"MOVEMENT\":{\"author_public_key\":")@ + json_bytes(author) + (
            ",\"signature\":")@ + json_bytes(signature) + (",\"from_address\":\"")@ + from + (
            "\",\"to_address\":\"")@ + to + ("\",\"ammount\":")@ + dec_of(ammount as nat) + (
            ",\"hash\":\"")@ + hash + ("\",\"history\":")@ + dec_of(history as nat) + ("}}")@,
            TxV::Coinbase { to, ammount, hash } => ("{\"COINBASE\":{\"to_address\":\"")@ + to + (
            "\",\"ammount\":")@ + dec_of(ammount as nat) + (",\"hash\":\"")@ + hash + (
            "\"}}")@,
            TxV::Stake { author, signature, from, ammount, hash, history } => (
            "{\"STAKE\":{\"author_public_key\":")@ + json_bytes(author) + (",\"signature\":")@
                + json_bytes(signature) + (",\"from_address\":\"")@ + from + (
            "\",\"ammount\":")@ + dec_of(ammount as nat) + (",\"hash\":\"")@ + hash + (
            "\",\"history\":")@ + dec_of(history as nat) + ("}}")@,
        }
    }

    /// The hash the transaction must carry: keccak-256 of the canonical
    /// form.
    pub open spec fn hash_of(self) -> Seq<char> {
        digest_of(self.canon())
    }

    /// The stored hash field.
    pub open spec fn hash(self) -> Seq<char> {
        match self {
            TxV::Movement { hash, .. } => hash,
            TxV::Coinbase { hash, .. } => hash,
            TxV::Stake { hash, .. } => hash,
        }
    }

    /// The stored nonce; a coinbase has none and counts as zero.
    pub open spec fn history(self) -> u64 {
        match self {
            TxV::Movement { history, .. } => history,
            TxV::Coinbase { .. } => 0,
            TxV::Stake { history, .. } => history,
        }
    }

    /// The amount moved, minted or staked.
    pub open spec fn ammount(self) -> u64 {
        match self {
            TxV::Movement { ammount, .. } => ammount,
            TxV::Coinbase { ammount, .. } => ammount,
            TxV::Stake { ammount, .. } => ammount,
        }
    }

    /// The origin address, for the variants that have one.
    pub open spec fn from(self) -> Option<Seq<char>> {
        match self {
            TxV::Movement { from, .. } => Some(from),
            TxV::Coinbase { .. } => None,
            TxV::Stake { from, .. } => Some(from),
        }
    }

    /// The origin address is the author's, the stored hash matches the
    /// canonical fields, and the signature verifies the hash under the
    /// author's key. A coinbase has only the hash to answer for.
    pub open spec fn valid(self) -> bool {
        match self {
            TxV::Movement { author, signature, from, hash, .. } => from == address_of(author)
                && hash == self.hash_of() && sig_verifies(author, signature, hash),
            TxV::Coinbase { hash, .. } => hash == self.hash_of(),
            TxV::Stake { author, signature, from, hash, .. } => from == address_of(author)
                && hash == self.hash_of() && sig_verifies(author, signature, hash),
        }
    }
}

impl Clone for Transaction {
    fn clone(&self) -> (r: Self)
        ensures
            r@ == self@,
    {
        match self {
            Transaction::MOVEMENT {
                author_public_key,
                signature,
                from_address,
                to_address,
                ammount,
                hash,
                history,
            } => Transaction::MOVEMENT {
                author_public_key: author_public_key.clone(),
                signature: signature.clone(),
                from_address: from_address.clone(),
                to_address: to_address.clone(),
                ammount: *ammount,
                hash: hash.clone(),
                history: *history,
            },
            Transaction::COINBASE { to_address, ammount, hash } => Transaction::COINBASE {
                to_address: to_address.clone(),
                ammount: *ammount,
                hash: hash.clone(),
            },
            Transaction::STAKE {
                author_public_key,
                signature,
                from_address,
                ammount,
                hash,
                history,
            } => Transaction::STAKE {
                author_public_key: author_public_key.clone(),
                signature: signature.clone(),
                from_address: from_address.clone(),
                ammount: *ammount,
                hash: hash.clone(),
                history: *history,
            },
        }
    }
}

impl Transaction {
    /// The stored hash.
    pub fn get_hash(&self) -> (r: String)
        ensures
            r@ == self@.hash(),
    {
        match self {
            Transaction::MOVEMENT { hash, .. } => hash.clone(),
            Transaction::COINBASE { hash, .. } => hash.clone(),
            Transaction::STAKE { hash, .. } => hash.clone(),
        }
    }

    /// The stored nonce; zero for a coinbase.
    pub fn get_history(&self) -> (r: u64)
        ensures
            r == self@.history(),
    {
        match self {
            Transaction::MOVEMENT { history, .. } => *history,
            Transaction::COINBASE { .. } => 0,
            Transaction::STAKE { history, .. } => *history,
        }
    }

    /// Recomputes the hash over the canonical fields. Two transactions
    /// with equal canonical fields hash alike, however they were built.
    pub fn hash_it(&self) -> (r: String)
        ensures
            r@ == self@.hash_of(),
    {
        let canon: String = match self {
            Transaction::MOVEMENT {
                author_public_key, from_address, to_address, ammount, history, ..
            } => {
                let mut s = author_public_key.to_text();
                s.append(from_address.as_str());
                s.append(to_address.as_str());
                let a = u64_to_dec(*ammount);
                s.append(a.as_str());
                let h = u64_to_dec(*history);
                s.append(h.as_str());
                s
            },
            Transaction::COINBASE { to_address, ammount, .. } => {
                let mut s = to_address.clone();
                let a = u64_to_dec(*ammount);
                s.append(a.as_str());
                s
            },
            Transaction::STAKE { author_public_key, from_address, ammount, history, .. } => {
                let mut s = author_public_key.to_text();
                s.append(from_address.as_str());
                let a = u64_to_dec(*ammount);
                s.append(a.as_str());
                let h = u64_to_dec(*history);
                s.append(h.as_str());
                s
            },
        };
        proof {
            assert(canon@ =~= self@.canon());
        }
        keccak_hex(canon.as_str())
    }

    /// Full self-check: address, hash and signature, in that order; the
    /// error names the first check that failed.
    pub fn check(&self) -> (r: Result<(), TxError>)
        ensures
            r is Ok <==> self@.valid(),
            match r {
                Ok(_) => true,
                Err(e) => match self@ {
                    TxV::Coinbase { hash, .. } => e == TxError::HashMismatch && hash
                        != self@.hash_of(),
                    TxV::Movement { author, signature, from, hash, .. } => (e
                        == TxError::AddressMismatch && from != address_of(author)) || (e
                        == TxError::HashMismatch && from == address_of(author) && hash
                        != self@.hash_of()) || (e == TxError::BadSignature && from == address_of(
                        author,
                    ) && hash == self@.hash_of() && !sig_verifies(author, signature, hash)),
                    TxV::Stake { author, signature, from, hash, .. } => (e
                        == TxError::AddressMismatch && from != address_of(author)) || (e
                        == TxError::HashMismatch && from == address_of(author) && hash
                        != self@.hash_of()) || (e == TxError::BadSignature && from == address_of(
                        author,
                    ) && hash == self@.hash_of() && !sig_verifies(author, signature, hash)),
                },
            },
    {
        match self {
            Transaction::COINBASE { hash, .. } => {
                let must = self.hash_it();
                if must == *hash {
                    Ok(())
                } else {
                    Err(TxError::HashMismatch)
                }
            },
            Transaction::MOVEMENT { author_public_key, signature, from_address, hash, .. } => {
                let expected = author_public_key.hash_it();
                if expected != *from_address {
                    return Err(TxError::AddressMismatch);
                }
                let must = self.hash_it();
                if must != *hash {
                    return Err(TxError::HashMismatch);
                }
                if crate::sig::verify_msg(&author_public_key.0, &signature.0, hash.as_str()) {
                    Ok(())
                } else {
                    Err(TxError::BadSignature)
                }
            },
            Transaction::STAKE { author_public_key, signature, from_address, hash, .. } => {
                let expected = author_public_key.hash_it();
                if expected != *from_address {
                    return Err(TxError::AddressMismatch);
                }
                let must = self.hash_it();
                if must != *hash {
                    return Err(TxError::HashMismatch);
                }
                if crate::sig::verify_msg(&author_public_key.0, &signature.0, hash.as_str()) {
                    Ok(())
                } else {
                    Err(TxError::BadSignature)
                }
            },
        }
    }

    /// The deterministic JSON rendering that a block's hash covers.
    pub fn json_string(&self) -> (r: String)
        ensures
            r@ == self@.json(),
    {
        let r: String = match self {
            Transaction::MOVEMENT {
                author_public_key,
                signature,
                from_address,
                to_address,
                ammount,
                hash,
                history,
            } => {
                let mut s = String::from_str("{\"MOVEMENT\":{\"author_public_key\":");
                let k = bytes_to_json(&author_public_key.0);
                s.append(k.as_str());
                s.append(",\"signature\":");
                let sg = bytes_to_json(&signature.0);
                s.append(sg.as_str());
                s.append(",\"from_address\":\"");
                s.append(from_address.as_str());
                s.append("\",\"to_address\":\"");
                s.append(to_address.as_str());
                s.append("\",\"ammount\":");
                let a = u64_to_dec(*ammount);
                s.append(a.as_str());
                s.append(",\"hash\":\"");
                s.append(hash.as_str());
                s.append("\",\"history\":");
                let h = u64_to_dec(*history);
                s.append(h.as_str());
                s.append("}}");
                s
            },
            Transaction::COINBASE { to_address, ammount, hash } => {
                let mut s = String::from_str("{\"COINBASE\":{\"to_address\":\"");
                s.append(to_address.as_str());
                s.append("\",\"ammount\":");
                let a = u64_to_dec(*ammount);
                s.append(a.as_str());
                s.append(",\"hash\":\"");
                s.append(hash.as_str());
                s.append("\"}}");
                s
            },
            Transaction::STAKE { author_public_key, signature, from_address, ammount, hash, history } => {
                let mut s = String::from_str("{\"STAKE\":{\"author_public_key\":");
                let k = bytes_to_json(&author_public_key.0);
                s.append(k.as_str());
                s.append(",\"signature\":");
                let sg = bytes_to_json(&signature.0);
                s.append(sg.as_str());
                s.append(",\"from_address\":\"");
                s.append(from_address.as_str());
                s.append("\",\"ammount\":");
                let a = u64_to_dec(*ammount);
                s.append(a.as_str());
                s.append(",\"hash\":\"");
                s.append(hash.as_str());
                s.append("\",\"history\":");
                let h = u64_to_dec(*history);
                s.append(h.as_str());
                s.append("}}");
                s
            },
        };
        proof {
            assert(r@ =~= self@.json());
        }
        r
    }

    /// Whether the transaction passes its full self-check.
    pub fn verify(&self) -> (r: bool)
        ensures
            r == self@.valid(),
    {
        self.check().is_ok()
    }
}

/// Two transactions with equal canonical fields have equal canonical
/// forms, and so equal hashes, however they were constructed.
pub proof fn lemma_hash_deterministic(a: TxV, b: TxV)
    requires
        a.canon() == b.canon(),
    ensures
        a.hash_of() == b.hash_of(),
{
}

} // verus!
