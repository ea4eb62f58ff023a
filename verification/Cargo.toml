[package]
name = "rust_tc"
version = "0.1.0"
edition = "2021"
publish = false

[dependencies]
bls12_381 = "0.7"
ff = "0.12"
group = "0.12"
rand = "0.8"
rand_chacha = "0.3"
rand_core = "0.6"
subtle = "2"
tiny-keccak = { version = "2", features = ["sha3"] }
zeroize = "1"
serde = { version = "1", features = ["derive"] }
anyhow = "1"
