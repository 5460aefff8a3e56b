[package]
name = "bells_indexer"
version = "0.1.0"
edition = "2021"
publish = false

[dependencies]
bellscoin = "=0.30.8"
bitcoin_hashes = "=0.13.1"
anyhow = "=1.0.104"
serde = { version = "=1.0.229", features = ["derive"] }
serde_with = "=3.24.0"
tokio = { version = "=1.54.1", features = ["full"] }
axum = "=0.8.9"
tower-http = { version = "=0.7.1", features = ["compression-full"] }
futures = "=0.3.34"
tokio-stream = "=0.1.19"
validator = "=0.21.0"
itertools = "=0.15.0"
num-traits = "=0.2.19"
parking_lot = "*"
signal-hook = "=0.4.6"
thread-priority = "=3.1.1"
dotenv = "=0.15.0"
tracing = "=0.1.44"
tracing-indicatif = "=0.3.14"
nintypes = "=0.2.11"
dutils = "=0.1.14"
