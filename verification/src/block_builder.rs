//! Builds a block: gather the parts, hash them, sign the hash.

use vstd::prelude::*;

use crate::block::Block;
use crate::block_hash::{block_hash_of, unite_of, BlockHash};
use crate::key::Key;
use crate::sig::sig_verifies;
use crate::transaction::Transaction;
use crate::wallet::Wallet;

verus! {

/// A block under construction.
pub struct BlockBuilder {
    pub hash: Option<BlockHash>,
    pub previous_hash: Option<BlockHash>,
    pub timestamp: Option<u64>,
    pub transactions: Vec<Transaction>,
    pub key: Option<Key>,
    pub signature: Option<Key>,
}

impl BlockBuilder {
    /// An empty builder.
    pub fn new() -> (r: Self)
        ensures
            r.hash is None,
            r.previous_hash is None,
            r.timestamp is None,
            r.transactions.deep_view() == Seq::<crate::transaction::TxV>::empty(),
            r.key is None,
            r.signature is None,
    {
        let r = BlockBuilder {
            hash: None,
            previous_hash: None,
            timestamp: None,
            transactions: Vec::new(),
            key: None,
            signature: None,
        };
        proof {
            assert(r.transactions.deep_view() =~= Seq::<crate::transaction::TxV>::empty());
        }
        r
    }

    /// Sets the transactions.
    pub fn transactions(self, transactions: Vec<Transaction>) -> (r: Self)
        ensures
            r.transactions == transactions,
            r.hash == self.hash,
            r.previous_hash == self.previous_hash,
            r.timestamp == self.timestamp,
            r.key == self.key,
            r.signature == self.signature,
    {
        BlockBuilder { transactions, ..self }
    }

    /// Sets the predecessor's hash.
    pub fn previous_hash(self, previous_hash: &BlockHash) -> (r: Self)
        ensures
            r.previous_hash matches Some(p) && p@ == previous_hash@,
            r.hash == self.hash,
            r.timestamp == self.timestamp,
            r.transactions == self.transactions,
            r.key == self.key,
            r.signature == self.signature,
    {
        BlockBuilder { previous_hash: Some(previous_hash.clone()), ..self }
    }

    /// Sets the timestamp (milliseconds since the epoch).
    pub fn timestamp(self, timestamp: u64) -> (r: Self)
        ensures
            r.timestamp == Some(timestamp),
            r.hash == self.hash,
            r.previous_hash == self.previous_hash,
            r.transactions == self.transactions,
            r.key == self.key,
            r.signature == self.signature,
    {
        BlockBuilder { timestamp: Some(timestamp), ..self }
    }

    /// Sets the forger's public key.
    pub fn key(self, key: &Key) -> (r: Self)
        ensures
            r.key matches Some(k) && k@ == key@,
            r.hash == self.hash,
            r.previous_hash == self.previous_hash,
            r.timestamp == self.timestamp,
            r.transactions == self.transactions,
            r.signature == self.signature,
    {
        BlockBuilder { key: Some(key.clone()), ..self }
    }

    /// Computes the block's hash over the parts gathered so far.
    pub fn hash_it(self) -> (r: Self)
        requires
            self.timestamp is Some,
            self.key is Some,
        ensures
            r.hash matches Some(h) && h@ == block_hash_of(
                self.transactions.deep_view(),
                self.timestamp.unwrap(),
                self.key.unwrap()@,
                match self.previous_hash {
                    Some(p) => Some(p@),
                    None => None,
                },
            ),
            r.previous_hash == self.previous_hash,
            r.timestamp == self.timestamp,
            r.transactions == self.transactions,
            r.key == self.key,
            r.signature == self.signature,
    {
        let timestamp = match self.timestamp {
            Some(t) => t,
            None => 0,
        };
        let hash = match &self.key {
            Some(key) => BlockHash::new(&self.transactions, timestamp, &self.previous_hash, key),
            None => BlockHash { hash: String::new(), version: 0 },
        };
        BlockBuilder { hash: Some(hash), ..self }
    }

    /// Signs the computed hash with the forger's wallet; the signature
    /// is left unset on the wallet's failed signature draw.
    pub fn sign_with(self, acc: &Wallet) -> (r: Self)
        requires
            self.hash is Some,
        ensures
            r.signature matches Some(s) ==> sig_verifies(
                acc.spec_public(),
                s@,
                unite_of(self.hash.unwrap()@),
            ),
            r.signature matches Some(s) ==> acc.spec_sign(unite_of(self.hash.unwrap()@)) == Some(
                s@,
            ),
            r.signature is None <==> acc.spec_sign(unite_of(self.hash.unwrap()@)) is None,
            r.hash == self.hash,
            r.previous_hash == self.previous_hash,
            r.timestamp == self.timestamp,
            r.transactions == self.transactions,
            r.key == self.key,
    {
        let signature = match &self.hash {
            Some(h) => acc.sign_data(h.unite()),
            None => None,
        };
        BlockBuilder { signature, ..self }
    }

    /// Assembles the block from the gathered parts.
    pub fn build(self) -> (r: Block)
        requires
            self.hash is Some,
            self.timestamp is Some,
            self.key is Some,
            self.signature is Some,
        ensures
            r@.hash == self.hash.unwrap()@,
            r@.previous_hash == (match self.previous_hash {
                Some(p) => Some(p@),
                None => None,
            }),
            r@.timestamp == self.timestamp.unwrap(),
            r@.transactions == self.transactions.deep_view(),
            r@.key == self.key.unwrap()@,
            r@.signature == self.signature.unwrap()@,
            r@.index is None,
    {
        let timestamp = match self.timestamp {
            Some(t) => t,
            None => 0,
        };
        let hash = match self.hash {
            Some(h) => h,
            None => BlockHash { hash: String::new(), version: 0 },
        };
        let key = match self.key {
            Some(k) => k,
            None => Key(Vec::new()),
        };
        let signature = match self.signature {
            Some(s) => s,
            None => Key(Vec::new()),
        };
        Block::new(self.transactions, timestamp, &hash, &self.previous_hash, &key, &signature)
    }
}

} // verus!
