//! A block's hash: the digest of the block's canonical form, together
//! with the hash-format version, and the `"{version}x{hex}"` string the
//! peers exchange.

use vstd::prelude::*;
use vstd::string::StringExecFns;

use crate::digest::{digest_of, keccak_hex};
use crate::text::{dec_of, key_str, u64_to_dec};
use crate::transaction::{Transaction, TxV};

verus! {

/// The current hash-format version.
pub const HASH_VERSION: u8 = 1;

/// A block hash with its format version.
pub struct BlockHash {
    pub hash: String,
    pub version: u8,
}

/// The mathematical shadow of a `BlockHash`.
pub struct BlockHashV {
    pub hash: Seq<char>,
    pub version: u8,
}

impl View for BlockHash {
    type V = BlockHashV;

    open spec fn view(&self) -> BlockHashV {
        BlockHashV { hash: self.hash@, version: self.version }
    }
}

/// The rest of a JSON array of transactions: a comma before each
/// further one.
pub open spec fn txs_json_rest(txs: Seq<TxV>) -> Seq<char>
    decreases txs.len(),
{
    if txs.len() == 0 {
        Seq::empty()
    } else {
        seq![','] + txs.first().json() + txs_json_rest(txs.drop_first())
    }
}

/// The deterministic JSON rendering of a run of transactions: their
/// JSON forms between brackets, comma-separated.
pub open spec fn txs_json(txs: Seq<TxV>) -> Seq<char> {
    if txs.len() == 0 {
        seq!['['] + seq![']']
    } else {
        seq!['['] + txs.first().json() + txs_json_rest(txs.drop_first()) + seq![']']
    }
}

/// The canonical form a block's hash is computed over: version,
/// serialized transactions, timestamp, forger key, and the previous
/// hash when there is one.
pub open spec fn block_canon(
    txs: Seq<TxV>,
    timestamp: u64,
    key: Seq<u8>,
    previous: Option<BlockHashV>,
) -> Seq<char> {
    dec_of(HASH_VERSION as nat) + txs_json(txs) + dec_of(timestamp as nat) + key_str(key) + (
    match previous {
        Some(p) => p.hash,
        None => Seq::empty(),
    })
}

/// The hash a block over these fields must carry.
pub open spec fn block_hash_of(
    txs: Seq<TxV>,
    timestamp: u64,
    key: Seq<u8>,
    previous: Option<BlockHashV>,
) -> BlockHashV {
    BlockHashV { hash: digest_of(block_canon(txs, timestamp, key, previous)), version: HASH_VERSION }
}

/// The canonical hash string: `"{version}x{hex}"`.
pub open spec fn unite_of(h: BlockHashV) -> Seq<char> {
    dec_of(h.version as nat) + seq!['x'] + h.hash
}

impl Clone for BlockHash {
    fn clone(&self) -> (r: Self)
        ensures
            r@ == self@,
    {
        BlockHash { hash: self.hash.clone(), version: self.version }
    }
}

impl PartialEq for BlockHash {
    fn eq(&self, other: &Self) -> (r: bool) {
        self.hash == other.hash && self.version == other.version
    }
}

impl Eq for BlockHash {

}

impl vstd::std_specs::cmp::PartialEqSpecImpl for BlockHash {
    open spec fn obeys_eq_spec() -> bool {
        true
    }

    open spec fn eq_spec(&self, other: &Self) -> bool {
        self@ == other@
    }
}

impl BlockHash {
    /// Computes the hash of a block over its canonical form.
    pub fn new(
        transactions: &Vec<Transaction>,
        timestamp: u64,
        previous_hash: &Option<BlockHash>,
        key: &crate::key::Key,
    ) -> (r: Self)
        ensures
            r@ == block_hash_of(
                transactions.deep_view(),
                timestamp,
                key@,
                match previous_hash {
                    Some(p) => Some(p@),
                    None => None,
                },
            ),
    {
        let mut canon = u64_to_dec(HASH_VERSION as u64);
        proof {
            reveal_strlit("[");
            reveal_strlit("]");
            reveal_strlit(",");
        }
        canon.append("[");
        let ghost dv = transactions.deep_view();
        let n = transactions.len();
        if n > 0 {
            let w = transactions[0].json_string();
            canon.append(w.as_str());
            proof {
                assert(transactions@[0]@ == dv.first());
                assert(dv.drop_first() =~= dv.skip(1));
            }
            for i in 1..n
                invariant
                    dv == transactions.deep_view(),
                    n == transactions.len(),
                    n >= 1,
                    forall|j: int| 0 <= j < n ==> dv[j] == #[trigger] transactions@[j]@,
                    dec_of(HASH_VERSION as nat) + seq!['['] + dv.first().json() + txs_json_rest(
                        dv.drop_first(),
                    ) =~= canon@ + txs_json_rest(dv.skip(i as int)),
            {
                canon.append(",");
                let w = transactions[i].json_string();
                canon.append(w.as_str());
                proof {
                    reveal_strlit(",");
                    assert(transactions@[i as int]@ == dv[i as int]);
                    assert(dv.skip(i as int).first() == dv[i as int]);
                    assert(dv.skip(i as int).drop_first() =~= dv.skip(i + 1));
                }
            }
        }
        canon.append("]");
        proof {
            assert(canon@ =~= dec_of(HASH_VERSION as nat) + txs_json(dv));
        }
        let t = u64_to_dec(timestamp);
        canon.append(t.as_str());
        let k = key.to_text();
        canon.append(k.as_str());
        match previous_hash {
            Some(previous) => {
                canon.append(previous.hash.as_str());
            },
            None => {},
        }
        proof {
            assert(canon@ =~= block_canon(
                transactions.deep_view(),
                timestamp,
                key@,
                match previous_hash {
                    Some(p) => Some(p@),
                    None => None,
                },
            ));
        }
        let hash = keccak_hex(canon.as_str());
        BlockHash { hash, version: HASH_VERSION }
    }

    /// The canonical hash string: `"{version}x{hex}"`.
    pub fn unite(&self) -> (r: String)
        ensures
            r@ == unite_of(self@),
    {
        let mut r = u64_to_dec(self.version as u64);
        proof {
            reveal_strlit("x");
        }
        r.append("x");
        r.append(self.hash.as_str());
        proof {
            assert(r@ =~= unite_of(self@));
        }
        r
    }
}

} // verus!
