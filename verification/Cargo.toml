[package]
name = "nexo-poller-gmail"
version = "0.1.0"
edition = "2021"
publish = false

[dependencies]
anyhow = "=1.0.104"
async-trait = "0.1"
base64 = "=0.22.1"
dashmap = "=6.2.1"
nexo-microapp-sdk = { version = "=0.1.20", default-features = false, features = ["poller"] }
nexo-poller = { version = "=0.2.0", default-features = false }
regex = "=1.13.1"
serde = { version = "1", features = ["derive"] }
serde_json = "=1.0.154"
tokio = { version = "1", features = ["sync", "time"] }
tracing = "0.1"
