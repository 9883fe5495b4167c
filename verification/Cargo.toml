[package]
name = "oxicode"
version = "0.1.0"
edition = "2021"
publish = false

[dependencies]
regex = "1"
globset = "0.4"
ignore = "0.4"
uuid = { version = "1", features = ["v4"] }
serde = { version = "1", features = ["derive"] }
serde_json = "1"
toml = "0.8"
chrono = "0.4"
dirs = "5"
anyhow = "1"
parking_lot = "0.12"
tracing = "0.1"
tokio = { version = "1", features = ["rt", "sync", "time"] }
async-trait = "0.1"
