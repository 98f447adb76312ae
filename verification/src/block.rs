//! A block: a signed header over a run of transactions, with integrity
//! and signature checks.

use vstd::prelude::*;

use crate::block_hash::{block_hash_of, unite_of, BlockHash, BlockHashV};
use crate::errors::BlocksErrors;
use crate::key::{Key, SignVerifier};
use crate::sig::sig_verifies;
use crate::transaction::{Transaction, TxV};

verus! {

/// A block of the chain.
pub struct Block {
    pub hash: BlockHash,
    pub previous_hash: Option<BlockHash>,
    pub timestamp: u64,
    pub transactions: Vec<Transaction>,
    pub key: Key,
    pub signature: Key,
    pub index: Option<usize>,
}

/// The mathematical shadow of a `Block`: every field by value.
pub struct BlockV {
    pub hash: BlockHashV,
    pub previous_hash: Option<BlockHashV>,
    pub timestamp: u64,
    pub transactions: Seq<TxV>,
    pub key: Seq<u8>,
    pub signature: Seq<u8>,
    pub index: Option<usize>,
}

impl View for Block {
    type V = BlockV;

    open spec fn view(&self) -> BlockV {
        BlockV {
            hash: self.hash@,
            previous_hash: match self.previous_hash {
                Some(p) => Some(p@),
                None => None,
            },
            timestamp: self.timestamp,
            transactions: self.transactions.deep_view(),
            key: self.key@,
            signature: self.signature@,
            index: self.index,
        }
    }
}

impl DeepView for Block {
    type V = BlockV;

    open spec fn deep_view(&self) -> BlockV {
        self.view()
    }
}

impl BlockV {
    /// The hash this block must carry, recomputed from its fields.
    pub open spec fn hash_of(self) -> BlockHashV {
        block_hash_of(self.transactions, self.timestamp, self.key, self.previous_hash)
    }

    /// The stored hash matches the fields.
    pub open spec fn integrity_ok(self) -> bool {
        self.hash == self.hash_of()
    }

    /// The stored signature verifies the canonical hash string under the
    /// given public key.
    pub open spec fn signed_by(self, key: Seq<u8>) -> bool {
        sig_verifies(key, self.signature, unite_of(self.hash))
    }
}

impl Clone for Block {
    fn clone(&self) -> (r: Self)
        ensures
            r@ == self@,
    {
        let mut transactions: Vec<Transaction> = Vec::new();
        let n = self.transactions.len();
        for i in 0..n
            invariant
                n == self.transactions.len(),
                transactions.deep_view() =~= self.transactions.deep_view().take(i as int),
        {
            let tx = self.transactions[i].clone();
            let ghost dv = transactions.deep_view();
            transactions.push(tx);
            proof {
                assert(transactions.deep_view() =~= dv.push(tx@));
                assert(dv.push(tx@) =~= self.transactions.deep_view().take(i + 1));
            }
        }
        proof {
            assert(self.transactions.deep_view().take(n as int) =~= self.transactions.deep_view());
        }
        let r = Block {
            hash: self.hash.clone(),
            previous_hash: match &self.previous_hash {
                Some(p) => Some(p.clone()),
                None => None,
            },
            timestamp: self.timestamp,
            transactions,
            key: self.key.clone(),
            signature: self.signature.clone(),
            index: self.index,
        };
        r
    }
}

impl Block {
    /// Assembles a block from its parts; the index is attached later,
    /// when the block joins a chain.
    pub fn new(
        transactions: Vec<Transaction>,
        timestamp: u64,
        hash: &BlockHash,
        previous_hash: &Option<BlockHash>,
        key: &Key,
        signature: &Key,
    ) -> (r: Self)
        ensures
            r@.hash == hash@,
            r@.previous_hash == match previous_hash {
                Some(p) => Some(p@),
                None => None,
            },
            r@.timestamp == timestamp,
            r@.transactions == transactions.deep_view(),
            r@.key == key@,
            r@.signature == signature@,
            r@.index is None,
    {
        Block {
            hash: hash.clone(),
            previous_hash: match previous_hash {
                Some(p) => Some(p.clone()),
                None => None,
            },
            timestamp,
            transactions,
            key: key.clone(),
            signature: signature.clone(),
            index: None,
        }
    }

    /// Recomputes the hash over the block's fields and compares it with
    /// the stored one.
    pub fn verify_integrity(&self) -> (r: Result<(), BlocksErrors>)
        ensures
            r is Ok <==> self@.integrity_ok(),
            r is Err ==> r == Result::<(), BlocksErrors>::Err(BlocksErrors::WrongHash),
    {
        let must_hash = BlockHash::new(
            &self.transactions,
            self.timestamp,
            &self.previous_hash,
            &self.key,
        );
        if must_hash == self.hash {
            Ok(())
        } else {
            Err(BlocksErrors::WrongHash)
        }
    }

    /// Whether the given verifier accepts the block's signature over the
    /// canonical hash string.
    pub fn verify_sign_with<A: SignVerifier>(&self, acc: &A) -> (r: bool)
        ensures
            r == self@.signed_by(acc.verifier_key()),
    {
        acc.verify_signature(&self.signature, self.hash.unite())
    }
}

} // verus!
