[package]
name = "solana_caching_service"
version = "0.1.0"
edition = "2021"
publish = false

[dependencies]
scc = "=3.8.8"
tokio = { version = "=1.53.2", features = ["macros", "rt-multi-thread", "sync", "time", "signal", "net"] }
axum = { version = "=0.8.9", default-features = false, features = ["http1", "json", "tokio"] }
tracing = "=0.1.44"
reqwest = { version = "=0.12.28", default-features = false, features = ["json", "rustls-tls"] }
serde_json = "=1.0.151"
