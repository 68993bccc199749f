[package]
name = "rcli"
version = "0.1.0"
edition = "2021"
publish = false

[dependencies]
anyhow = "1"
axum = "0.7"
base64 = "=0.22.1"
blake3 = "=1.8.7"
chacha20poly1305 = "=0.10.1"
clap = { version = "4", features = ["derive"] }
csv = "1"
ed25519-dalek = { version = "=2.2.0", features = ["rand_core"] }
jwt-simple = "0.11"
rand = "=0.8.8"
serde = { version = "1", features = ["derive"] }
serde_json = "1"
tokio = { version = "1", features = ["rt-multi-thread", "macros", "net", "fs"] }
tower-http = { version = "0.5", features = ["fs"] }
tracing = "0.1"
tracing-subscriber = "0.3"
