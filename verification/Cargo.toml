[package]
name = "kv_collections"
version = "0.1.0"
edition = "2021"
publish = false

[dependencies]
bytes = "1"
slog = "2"
tikv-client = "0.3"
tokio = { version = "1", features = ["sync"] }
