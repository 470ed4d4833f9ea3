[package]
name = "sui_gateway"
version = "0.1.0"
edition = "2021"
publish = false

[dependencies]
sha3 = "=0.10.9"
ed25519-dalek = { version = "=2.1.1", features = ["batch"] }
