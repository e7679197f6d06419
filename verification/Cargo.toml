[package]
name = "mapping_manager"
version = "0.1.0"
edition = "2021"
publish = false

[dependencies]
axum = "=0.8.9"
chrono = { version = "=0.4.45", features = ["serde"] }
serde = { version = "=1.0.229", features = ["derive"] }
serde_json = "*"
tokio = { version = "=1.53.2", features = ["rt-multi-thread", "net", "macros"] }
