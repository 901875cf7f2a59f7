[package]
name = "zeroclaw_memory"
version = "0.1.0"
edition = "2021"
publish = false

[dependencies]
anyhow = "=1.0.104"
async-trait = "0.1"
chrono = { version = "=0.4.45", features = ["serde"] }
parking_lot = "0.12"
regex = "=1.13.1"
rusqlite = { version = "=0.37.0", features = ["bundled"] }
serde = { version = "1", features = ["derive"] }
serde_json = "=1.0.154"
tokio = { version = "=1.54.1", features = ["time", "rt", "macros"] }
tracing = "0.1"
uuid = { version = "=1.29.0", features = ["v4"] }
