[package]
name = "filedrop"
version = "0.1.0"
edition = "2021"
publish = false

[dependencies]
anyhow = "1"
axum = { version = "=0.5.17", features = ["multipart"] }
base64 = "=0.13.1"
blake3 = "=1.8.7"
dashmap = "=5.5.3"
envconfig = "=0.10.0"
infer = "=0.16.0"
rand = "=0.8.8"
serde = { version = "1", features = ["derive"] }
tokio = { version = "1", features = ["rt", "macros", "fs", "io-util", "net", "sync"] }
tracing = "0.1"
tracing-subscriber = { version = "0.3", features = ["env-filter"] }
