[package]
name = "dagchain"
version = "0.1.0"
edition = "2021"
publish = false

[dependencies]
blake2b_simd = "*"
bls-signatures = "*"
hex = "*"
multibase = "*"
rand = "0.8"
sled = "*"
