[package]
name = "recall"
version = "0.1.0"
edition = "2021"
publish = false

[dependencies]
chrono = "=0.4.45"
crossterm = "=0.28.1"
dirs = "=5.0.1"
fastembed = { version = "=4.9.1", default-features = false, features = ["hf-hub-rustls-tls", "ort-load-dynamic"] }
ratatui = "=0.29.0"
regex = "=1.13.1"
rusqlite = { version = "=0.31.0", features = ["bundled"] }
serde = { version = "1", features = ["derive"] }
toml = "=0.8.23"
