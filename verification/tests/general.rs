// The chain accepts a run of blocks from alternating forgers, its
// integrity audit passes, and block signatures verify only under the
// key that made them.

use pos_chain::block::Block;
use pos_chain::block_builder::BlockBuilder;
use pos_chain::block_chain::Blockchain;
use pos_chain::block_hash::BlockHash;
use pos_chain::public_address::PublicAddress;
use pos_chain::transaction::Transaction;
use pos_chain::transaction_builder::{TransactionBuilder, TransactionType};
use pos_chain::wallet::Wallet;

fn wallet_from(byte: u8) -> Wallet {
    Wallet::from_private(&vec![byte; 32], 0).unwrap()
}

fn forge_block(
    wallet: &Wallet,
    prev: Option<BlockHash>,
    extra: Vec<Transaction>,
    reward: u64,
    ts: u64,
) -> Block {
    let mut wcopy = wallet.clone();
    let coinbase = TransactionBuilder::new()
        .to_address(wallet.get_public().hash_it().as_str())
        .ammount(reward)
        .is_type(TransactionType::COINBASE)
        .with_wallet(&mut wcopy)
        .build()
        .unwrap();
    let mut txs = vec![coinbase];
    txs.extend(extra);
    let mut builder = BlockBuilder::new()
        .transactions(txs)
        .timestamp(ts)
        .key(&wallet.get_public());
    if let Some(p) = prev {
        builder = builder.previous_hash(&p);
    }
    builder.hash_it().sign_with(wallet).build()
}

#[test]
fn test() {
    let mut blockchain = Blockchain::new();

    assert!(pos_chain::block_chain::verify_integrity(&blockchain.chain).is_ok());

    let account_a = wallet_from(1);
    let account_b = wallet_from(2);
    let public_key = account_a.get_public();

    if blockchain.last_block_hash.is_none() {
        let genesis = forge_block(&account_a, None, vec![], 10, 1_000);
        blockchain.add_block(&genesis, None).unwrap();
    }

    for i in 1..5u64 {
        let forger = if i % 2 == 0 { &account_a } else { &account_b };
        let prev = blockchain.last_block_hash.clone();
        let block = forge_block(forger, prev, vec![], 10, 1_000 + i);
        blockchain.add_block(&block, None).unwrap();
    }

    let block_3 = forge_block(&account_a, None, vec![], 10, 9_000);

    // Verifying the signing on the block should fail for an account
    // that has not signed it.
    assert!(block_3.verify_sign_with(&account_a));
    assert!(!block_3.verify_sign_with(&account_b));

    assert!(pos_chain::block_chain::verify_integrity(&blockchain.chain).is_ok());

    let public_account_a = PublicAddress::from(&public_key);

    assert!(block_3.verify_sign_with(&public_account_a));
}
