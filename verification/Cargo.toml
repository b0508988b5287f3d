[package]
name = "den"
version = "0.1.0"
edition = "2021"
publish = false

[dependencies]
rusqlite = { version = "0.32", features = ["bundled"] }
serde = { version = "1", features = ["derive"] }
serde_json = "1"
tempfile = "3"
flate2 = "1"
tar = "0.4"
sevenz-rust = "0.6"
zip = { version = "2", default-features = false, features = ["deflate"] }
dirs = "5"
log = "0.4"
env_logger = "0.11"
thiserror = "1"
anyhow = "1"
axum = "0.8"
tokio = { version = "1", features = ["rt-multi-thread", "net", "macros"] }

[dev-dependencies]
tempfile = "3"
