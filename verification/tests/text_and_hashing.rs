// The canonical text forms, the keccak-256 digests behind every hash,
// hash determinism, and the signature round trip.

use pos_chain::block_hash::BlockHash;
use pos_chain::digest::keccak_hex;
use pos_chain::key::Key;
use pos_chain::text::{bytes_to_dec_str, contains_prefix_of, to_hex, u64_to_dec};
use pos_chain::transaction::Transaction;
use pos_chain::wallet::Wallet;

fn wallet_from(byte: u8) -> Wallet {
    Wallet::from_private(&vec![byte; 32], 0).unwrap()
}

#[test]
fn decimal_rendering() {
    assert_eq!(u64_to_dec(0), "0");
    assert_eq!(u64_to_dec(7), "7");
    assert_eq!(u64_to_dec(12_345), "12345");
    assert_eq!(u64_to_dec(u64::MAX), "18446744073709551615");
}

#[test]
fn hex_rendering() {
    assert_eq!(to_hex(&vec![]), "");
    assert_eq!(to_hex(&vec![0x00, 0x0f, 0xa5, 0xff]), "000fa5ff");
}

#[test]
fn key_text_rendering() {
    assert_eq!(bytes_to_dec_str(&vec![]), "");
    assert_eq!(bytes_to_dec_str(&vec![1]), "1");
    assert_eq!(bytes_to_dec_str(&vec![1, 2, 30]), "1 2 30");
}

#[test]
fn keccak_known_digests() {
    // Known keccak-256 digests pin the wrapper to the real function.
    assert_eq!(
        keccak_hex(""),
        "c5d2460186f7233c927e7db2dcc703c0e500b653ca82273b7bfad8045d85a470"
    );
    assert_eq!(
        keccak_hex("abc"),
        "4e03657aea45a94fc7d47ba826c8d667c0d1e6e33a64a036ec44f58fa12d6c45"
    );
}

#[test]
fn hash_string_form() {
    let h = BlockHash { hash: "abcd".to_string(), version: 1 };
    assert_eq!(h.unite(), "1xabcd");
}

#[test]
fn substring_search() {
    assert!(contains_prefix_of("hello world", "lo wo", 5));
    assert!(contains_prefix_of("hello world", "hell", 4));
    assert!(contains_prefix_of("hello world", "anything", 0));
    assert!(!contains_prefix_of("hello world", "low", 3));
    assert!(!contains_prefix_of("hi", "hello", 5));
}

#[test]
fn transaction_hash_determinism() {
    // Equal canonical fields hash alike, however the values were made.
    let a = Transaction::COINBASE {
        to_address: "somebody".to_string(),
        ammount: 42,
        hash: String::new(),
    };
    let b = Transaction::COINBASE {
        to_address: format!("some{}", "body"),
        ammount: 42,
        hash: "ignored by the hash".to_string(),
    };
    assert_eq!(a.hash_it(), b.hash_it());

    let w = wallet_from(1);
    let k = w.get_public();
    let m1 = Transaction::MOVEMENT {
        author_public_key: Key(k.0.clone()),
        signature: Key(vec![]),
        from_address: k.hash_it(),
        to_address: "bob".to_string(),
        ammount: 5,
        hash: String::new(),
        history: 0,
    };
    let m2 = Transaction::MOVEMENT {
        author_public_key: Key(k.0.clone()),
        signature: Key(vec![1, 2, 3]),
        from_address: k.hash_it(),
        to_address: "bob".to_string(),
        ammount: 5,
        hash: "different stored hash".to_string(),
        history: 0,
    };
    assert_eq!(m1.hash_it(), m2.hash_it());

    let m3 = Transaction::MOVEMENT {
        author_public_key: Key(k.0.clone()),
        signature: Key(vec![]),
        from_address: k.hash_it(),
        to_address: "bob".to_string(),
        ammount: 6,
        hash: String::new(),
        history: 0,
    };
    assert_ne!(m1.hash_it(), m3.hash_it());
}

#[test]
fn signature_round_trip() {
    // A wallet's signature verifies under its own key and under no
    // other wallet's key.
    let w = wallet_from(1);
    let foreign = wallet_from(2);
    let data = "Hello World".to_string();
    let signature = w.sign_data(data.clone()).unwrap();
    assert!(pos_chain::key::SignVerifier::verify_signature(&w, &signature, data.clone()));
    assert!(!pos_chain::key::SignVerifier::verify_signature(&foreign, &signature, data.clone()));
    let tampered = "Hello world".to_string();
    assert!(!pos_chain::key::SignVerifier::verify_signature(&w, &signature, tampered));
}

#[test]
fn built_transactions_self_verify() {
    let mut w = wallet_from(1);
    let tx = pos_chain::transaction_builder::TransactionBuilder::new()
        .to_address("bob")
        .ammount(5)
        .is_type(pos_chain::transaction_builder::TransactionType::MOVEMENT)
        .with_wallet(&mut w)
        .build()
        .unwrap();
    assert!(tx.verify());
    assert_eq!(tx.get_hash(), tx.hash_it());
    assert!(tx.check().is_ok());
}

#[test]
fn wallet_key_validity() {
    // A fresh wallet signs and verifies; byte strings outside the curve
    // order are refused as private keys.
    let w = Wallet::new();
    let sig = w.sign_data("data".to_string()).unwrap();
    assert!(pos_chain::key::SignVerifier::verify_signature(&w, &sig, "data".to_string()));

    assert!(Wallet::from_private(&vec![0u8; 32], 0).is_none());
    assert!(Wallet::from_private(&vec![0xffu8; 32], 0).is_none());
    assert!(Wallet::from_private(&vec![], 0).is_none());

    // A wallet rebuilt from its private key signs identically.
    let w2 = Wallet::from_private(&w.get_private().0, 0).unwrap();
    assert_eq!(w.sign_data("x".to_string()).unwrap().0, w2.sign_data("x".to_string()).unwrap().0);
    assert_eq!(w.get_public().0, w2.get_public().0);
}

#[test]
fn transaction_json_rendering() {
    // The canonical form a block hash covers is the deterministic JSON
    // of the transaction, fields in declaration order.
    let coinbase = Transaction::COINBASE {
        to_address: "ab".to_string(),
        ammount: 5,
        hash: "cd".to_string(),
    };
    assert_eq!(
        coinbase.json_string(),
        "{\"COINBASE\":{\"to_address\":\"ab\",\"ammount\":5,\"hash\":\"cd\"}}"
    );

    let movement = Transaction::MOVEMENT {
        author_public_key: Key(vec![1, 2]),
        signature: Key(vec![]),
        from_address: "f".to_string(),
        to_address: "t".to_string(),
        ammount: 7,
        hash: "h".to_string(),
        history: 3,
    };
    assert_eq!(
        movement.json_string(),
        "{\"MOVEMENT\":{\"author_public_key\":[1,2],\"signature\":[],\"from_address\":\"f\",\"to_address\":\"t\",\"ammount\":7,\"hash\":\"h\",\"history\":3}}"
    );
}
