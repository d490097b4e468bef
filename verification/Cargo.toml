[package]
name = "mbongo"
version = "0.1.0"
edition = "2021"
publish = false

[dependencies]
blake3 = "1"
ed25519-dalek = "2"
hex = "0.4"
log = "0.4"
serde_json = "1"
thiserror = "1"
tokio = { version = "1", features = ["sync", "rt", "macros"] }

[dev-dependencies]
parity-scale-codec = "3"
