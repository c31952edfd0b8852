[package]
name = "storm_core"
version = "0.1.0"
edition = "2021"
publish = false

[dependencies]
bitcoin_hashes = "=0.11.0"
bech32 = "=0.9.1"
serde = "1"

[dev-dependencies]
commit_verify = "=0.9.0"
amplify = "=3.14.2"
lnpbp_bech32 = "=0.9.0"
