[package]
name = "rust-mumble"
version = "0.1.0"
edition = "2021"
publish = false

[dependencies]
axum = "=0.8.9"
axum-auth = "=0.8.1"
parking_lot = "=0.12.5"
reqwest = { version = "0.12", default-features = false, features = ["json", "rustls-tls"] }
scc = "=2.4.0"
serde = { version = "=1.0.229", features = ["derive"] }
serde_json = "1"
tokio = { version = "=1.54.1", features = ["rt-multi-thread", "macros", "time", "net", "sync"] }
tracing = "=0.1.44"
