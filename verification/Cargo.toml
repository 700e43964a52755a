[package]
name = "pi_dashboard"
version = "0.1.0"
edition = "2021"
publish = false

[dependencies]
png = "0.17"
base64 = "0.22"
tokio = { version = "1", features = ["rt", "time", "sync", "net", "io-util", "process", "macros"] }
tracing = "0.1"
tracing-subscriber = { version = "0.3", features = ["env-filter"] }
serde = { version = "1", features = ["derive"] }
serde_json = "1"
fontdue = "0.9"
libc = "0.2"
time = { version = "0.3", features = ["local-offset"] }
anyhow = "1"
