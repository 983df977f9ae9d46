[package]
name = "json_subscriber"
version = "0.2.0"
edition = "2021"
publish = false

[dependencies]
arc-swap = "1"
gethostname = "*"
serde = "1"
serde_json = "1"
tracing = "0.1"
tracing-core = "0.1"
tracing-subscriber = { version = "0.3", features = ["env-filter"] }
uuid = { version = "1", features = ["v4"] }
