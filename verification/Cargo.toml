[package]
name = "hydrofoil"
version = "0.1.0"
edition = "2021"
publish = false

[dependencies]
chrono = { version = "=0.4.45", default-features = false, features = ["std", "clock"] }
uuid = { version = "=1.29.0", features = ["v4", "v7"] }
serde = { version = "=1.0.229", features = ["derive"] }
serde_json = { version = "=1.0.154", features = ["raw_value"] }
http = "=1.5.0"
tokio = { version = "=1.54.1", features = ["rt-multi-thread", "macros", "time", "sync", "signal"] }
config = "=0.15.27"
url = "=2.5.8"
humantime = "=2.4.0"
reqwest = { version = "0.12", default-features = false }
