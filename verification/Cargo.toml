[package]
name = "quotamiser"
version = "0.1.0"
edition = "2021"
publish = false

[dependencies]
# Without its `json` feature, which would have serde_json read an object that
# starts with one of its private keys as something else.
axum = { version = "=0.8.9", default-features = false, features = ["http1", "tokio"] }
bytes = "=1.12.1"
httpdate = "=1.0.3"
reqwest = { version = "=0.12.28", default-features = false, features = ["rustls-tls", "json", "stream", "http2"] }
rusqlite = { version = "=0.41.1", features = ["bundled"] }
serde = { version = "=1.0.229", features = ["derive"] }
serde_json = { version = "=1.0.154", features = ["preserve_order"] }
thiserror = "=2.0.21"
tokio = { version = "=1.54.1", features = ["full"] }
tokio-stream = "=0.1.19"
toml = "=0.9.12"
