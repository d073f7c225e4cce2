[package]
name = "cowchain"
version = "0.1.0"
edition = "2021"
publish = false

[dependencies]
bincode = "1.3"
generic-array = "0.14"
serde = { version = "1", features = ["derive"] }
sha3 = "0.10"
libp2p = { version = "0.55", default-features = false, features = ["ed25519", "gossipsub", "noise", "tcp", "tokio", "yamux"] }
tokio = { version = "1", features = ["rt-multi-thread"] }
