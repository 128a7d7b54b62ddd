[package]
name = "axum_ws"
version = "0.1.0"
edition = "2021"
publish = false

[dependencies]
serde_json = "1"
nanoid = "0.4"
axum = { version = "0.7", features = ["ws"] }
tokio = { version = "1", features = ["sync", "rt", "macros"] }
futures = "0.3"
lazy_static = "1"
anyhow = "1"
