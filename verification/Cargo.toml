[package]
name = "speed_blockchain"
version = "0.1.0"
edition = "2021"
publish = false

[dependencies]
alloy-primitives = { version = "=1.7.3", features = ["k256"] }
alloy-signer = "=2.5.0"
alloy-signer-local = "=2.5.0"
rand_chacha = "=0.10.0"
rand_core = "=0.10.1"
