[package]
name = "proof_memory"
version = "0.1.0"
edition = "2021"
publish = false

[dependencies]
winterfell = "0.6"
winter-air = "0.6"
bincode = "1"
serde = { version = "1", features = ["derive"] }
serde_json = "1"
