[package]
name = "pos_chain"
version = "0.1.0"
edition = "2021"
publish = false

[dependencies]
k256 = { version = "=0.11.6", features = ["ecdsa"] }
rand_core = { version = "=0.6.4", features = ["getrandom"] }
sha3 = "=0.10.9"
serde = { version = "=1.0.229", features = ["derive"] }
serde_json = "=1.0.151"
chrono = "=0.4.45"
argh = "=0.1.19"
