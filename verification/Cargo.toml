[package]
name = "pbft"
version = "0.1.0"
edition = "2021"
publish = false

[dependencies]
ed25519-dalek = "1"
sha2 = "0.9"
serde = { version = "1", features = ["derive"] }
serde_json = "1"
rand = "0.7"
tokio = { version = "1", features = ["full"] }
log = "0.4"
env_logger = "0.9"
