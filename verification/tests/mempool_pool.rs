// The memory pool: admission outcomes, idempotence, eviction, the
// gossip chunk, and the nonce ordering used at assembly.

use pos_chain::errors::TxError;
use pos_chain::key::Key;
use pos_chain::mempool::{sort_by_history, Mempool};
use pos_chain::node::NodeState;
use pos_chain::block_builder::BlockBuilder;
use pos_chain::block_chain::Blockchain;
use pos_chain::transaction::Transaction;
use pos_chain::transaction_builder::{TransactionBuilder, TransactionType};
use pos_chain::wallet::Wallet;

fn wallet_from(byte: u8) -> Wallet {
    Wallet::from_private(&vec![byte; 32], 0).unwrap()
}

fn coinbase_tx(to: &str, ammount: u64) -> Transaction {
    let mut w = wallet_from(9);
    TransactionBuilder::new()
        .to_address(to)
        .ammount(ammount)
        .is_type(TransactionType::COINBASE)
        .with_wallet(&mut w)
        .build()
        .unwrap()
}

fn dummy_movement(history: u64) -> Transaction {
    tagged_movement(history, "to")
}

fn tagged_movement(history: u64, to: &str) -> Transaction {
    Transaction::MOVEMENT {
        author_public_key: Key(vec![history as u8]),
        signature: Key(vec![]),
        from_address: format!("from{}", history),
        to_address: to.to_string(),
        ammount: 1,
        hash: format!("hash{}{}", history, to),
        history,
    }
}

#[test]
fn pool_cache_and_removal() {
    let mut pool = Mempool::new();
    let tx = coinbase_tx("somewhere", 3);
    assert!(!pool.is_transaction_cached(&tx));
    pool.add_transaction(&tx);
    assert!(pool.is_transaction_cached(&tx));
    assert_eq!(pool.pending_len(), 1);

    // Adding the same transaction again replaces its entry.
    pool.add_transaction(&tx);
    assert_eq!(pool.pending_len(), 1);

    pool.remove_transaction(&tx.get_hash());
    assert_eq!(pool.pending_len(), 0);
    // The hash stays in the seen cache even after leaving the pool.
    assert!(pool.is_transaction_cached(&tx));
}

#[test]
fn admission_rejects_bad_transactions() {
    let genesis_wallet = wallet_from(1);
    let mut node = NodeState::new(Blockchain::new(), genesis_wallet.clone(), 0);

    // A movement whose origin has no funds is rejected.
    let mut broke = wallet_from(7);
    let poor_tx = TransactionBuilder::new()
        .to_address("nobody")
        .ammount(5)
        .is_type(TransactionType::MOVEMENT)
        .with_wallet(&mut broke)
        .build()
        .unwrap();
    assert_eq!(node.admit_transaction(&poor_tx), Err(TxError::InsufficientFunds));

    // A transaction whose origin is not the author's address.
    let mut w = wallet_from(8);
    let tx = TransactionBuilder::new()
        .to_address("nobody")
        .ammount(5)
        .is_type(TransactionType::MOVEMENT)
        .with_wallet(&mut w)
        .build()
        .unwrap();
    let mismatched = match tx.clone() {
        Transaction::MOVEMENT {
            author_public_key,
            signature,
            to_address,
            ammount,
            hash,
            history,
            ..
        } => Transaction::MOVEMENT {
            author_public_key,
            signature,
            from_address: "someone else".to_string(),
            to_address,
            ammount,
            hash,
            history,
        },
        other => other,
    };
    assert_eq!(node.admit_transaction(&mismatched), Err(TxError::AddressMismatch));

    // A transaction whose stored hash was altered.
    let rehashed = match tx.clone() {
        Transaction::MOVEMENT {
            author_public_key,
            signature,
            from_address,
            to_address,
            ammount,
            history,
            ..
        } => Transaction::MOVEMENT {
            author_public_key,
            signature,
            from_address,
            to_address,
            ammount,
            hash: "0000".to_string(),
            history,
        },
        other => other,
    };
    assert_eq!(node.admit_transaction(&rehashed), Err(TxError::HashMismatch));

    // A transaction signed by someone else.
    let other_sig = {
        let stranger = wallet_from(9);
        match tx.clone() {
            Transaction::MOVEMENT {
                author_public_key,
                from_address,
                to_address,
                ammount,
                hash,
                history,
                ..
            } => Transaction::MOVEMENT {
                author_public_key,
                signature: stranger.sign_data(hash.clone()).unwrap(),
                from_address,
                to_address,
                ammount,
                hash,
                history,
            },
            other => other,
        }
    };
    assert_eq!(node.admit_transaction(&other_sig), Err(TxError::BadSignature));

    assert_eq!(node.mempool.pending_len(), 0);
}

#[test]
fn gossip_chunk_threshold() {
    let genesis_wallet = wallet_from(1);
    let mut blockchain = Blockchain::new();
    let mut wcopy = genesis_wallet.clone();
    let coinbase = TransactionBuilder::new()
        .to_address(genesis_wallet.get_public().hash_it().as_str())
        .ammount(1_000_000)
        .is_type(TransactionType::COINBASE)
        .with_wallet(&mut wcopy)
        .build()
        .unwrap();
    let genesis = BlockBuilder::new()
        .transactions(vec![coinbase])
        .timestamp(1_000)
        .key(&genesis_wallet.get_public())
        .hash_it()
        .sign_with(&genesis_wallet)
        .build();
    blockchain.add_block(&genesis, None).unwrap();

    let mut node = NodeState::new(blockchain, genesis_wallet.clone(), 0);
    let mut sender = genesis_wallet.clone();
    for i in 0..5u64 {
        let tx = TransactionBuilder::new()
            .to_address(format!("peer{}", i).as_str())
            .ammount(1)
            .is_type(TransactionType::MOVEMENT)
            .with_wallet(&mut sender)
            .build()
            .unwrap();
        assert!(node.admit_transaction(&tx).is_ok());
        if i < 4 {
            assert!(node.take_gossip_batch().is_none());
        }
    }
    let batch = node.take_gossip_batch().expect("five admitted crosses the chunk size");
    assert_eq!(batch.len(), 5);
    assert!(node.take_gossip_batch().is_none());
}

#[test]
fn sorting_by_nonce() {
    let txs = vec![
        dummy_movement(5),
        dummy_movement(0),
        dummy_movement(3),
        dummy_movement(3),
        dummy_movement(1),
    ];
    let sorted = sort_by_history(txs);
    let nonces: Vec<u64> = sorted.iter().map(|t| t.get_history()).collect();
    assert_eq!(nonces, vec![0, 1, 3, 3, 5]);
}

#[test]
fn sorting_keeps_tie_order() {
    // Equal nonces keep their arrival order: the sort is stable.
    let txs = vec![
        tagged_movement(2, "first of twos"),
        tagged_movement(0, "zero"),
        tagged_movement(2, "second of twos"),
        tagged_movement(1, "one"),
        tagged_movement(2, "third of twos"),
    ];
    let sorted = sort_by_history(txs);
    let tags: Vec<String> = sorted
        .iter()
        .map(|t| match t {
            Transaction::MOVEMENT { to_address, .. } => to_address.clone(),
            _ => String::new(),
        })
        .collect();
    assert_eq!(
        tags,
        vec!["zero", "one", "first of twos", "second of twos", "third of twos"]
    );
}

#[test]
fn block_intake_caps_at_seven_hundred() {
    // A block's sift never takes more than the cap; the rest stay
    // untouched for a later block.
    let mut txs = Vec::new();
    for i in 0..705u64 {
        txs.push(Transaction::COINBASE {
            to_address: format!("addr{}", i),
            ammount: 1,
            hash: format!("h{}", i),
        });
    }
    let mut scratch = pos_chain::chainstate::Chainstate::new();
    let (ok, bad) = Mempool::verify_veracity_of_transactions(&txs, &mut scratch);
    assert_eq!(ok.len(), 700);
    assert_eq!(bad.len(), 0);
}
