[package]
name = "peg_zone"
version = "0.1.0"
edition = "2021"
publish = false

[dependencies]
abci2 = "*"
bitcoin = "*"
error-chain = "*"
log = "*"
orga = "*"
rand = "*"
secp256k1 = "*"
serde_json = "*"
