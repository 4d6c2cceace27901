[package]
name = "shielded_wallet"
version = "0.1.0"
edition = "2021"
publish = false

[dependencies]
rusqlite = { version = "*", features = ["bundled"] }
tokio = { version = "*", features = ["rt-multi-thread"] }
time = "*"
async-trait = "*"
zcash_primitives = "*"
