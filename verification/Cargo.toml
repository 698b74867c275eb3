[package]
name = "uniswap_rs"
version = "0.1.0"
edition = "2021"
publish = false

[dependencies]
ethers-core = "2"
serde = "1"
serde_json = "1"
