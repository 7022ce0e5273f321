[package]
name = "strategy"
version = "0.1.0"
edition = "2021"
publish = false

[dependencies]
anyhow = "1"
async-trait = "0.1"
colored = "2"
ethers = { version = "2", default-features = false }
log = "0.4"
