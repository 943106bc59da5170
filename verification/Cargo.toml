[package]
name = "tee_matcher"
version = "0.1.0"
edition = "2021"
publish = false

[dependencies]
actix-web = "4"
anyhow = "1"
clap = { version = "4", features = ["derive"] }
env_logger = "0.11"
hex = "0.4"
k256 = { version = "0.13", features = ["ecdsa"] }
log = "0.4"
serde = { version = "1", features = ["derive"] }
serde_json = "1"
tiny-keccak = { version = "2.0", features = ["keccak"] }
tokio = { version = "1", features = ["fs"] }
tokio-stream = "0.1"
