[package]
name = "priority_notify"
version = "0.1.0"
edition = "2021"
publish = false

[dependencies]
serde = { version = "=1.0.229", features = ["derive"] }
serde_json = "=1.0.154"
reqwest = { version = "=0.12.28", features = ["json", "stream"] }
tokio = { version = "=1.54.1", features = ["rt", "time", "macros"] }
futures = "=0.3.34"
log = "=0.4.35"
