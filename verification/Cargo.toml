[package]
name = "blockchain_core"
version = "0.1.0"
edition = "2021"
publish = false

[dependencies]
sha2 = "*"
ed25519-dalek = "*"
hex = "*"
chrono = "*"
rand = "*"
tokio = { version = "*", default-features = false, features = ["macros", "rt-multi-thread", "sync", "time"] }
zeromq = "*"
clap = { version = "*", features = ["derive"] }
anyhow = "*"
log = "*"
env_logger = "*"
bincode = "*"
serde = { version = "*", features = ["derive"] }
