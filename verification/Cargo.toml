[package]
name = "redstone_sol"
version = "0.1.0"
edition = "2021"
publish = false

[dependencies]
sha3 = "0.10"
libsecp256k1 = "0.7"
serde = { version = "1", features = ["derive"] }
serde_json = "1"
