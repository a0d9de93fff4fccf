[package]
name = "quakers_launcher"
version = "0.1.6"
edition = "2021"
publish = false

[dependencies]
anyhow = "1"
blake2 = "0.10"
blake3 = "1"
clap = { version = "4", features = ["derive"] }
digest = "0.10"
futures-util = "0.3"
hex = "0.4"
ratatui = "0.29"
reqwest = { version = "0.12", default-features = false, features = ["rustls-tls", "stream"] }
serde = { version = "1", features = ["derive"] }
serde_json = "1"
tokio = { version = "1", features = ["full"] }
toml = "0.8"
