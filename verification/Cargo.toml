[package]
name = "karmx"
version = "0.1.0"
edition = "2021"
publish = false

[dependencies]
serde = { version = "=1.0.229", features = ["derive"] }
serde_json = "=1.0.154"
serde_yaml = "=0.9.34"
base64 = "=0.22.1"
uuid = { version = "=1.29.0", features = ["v4"] }
ignore = "=0.4.34"
tokio = { version = "=1.54.1", features = ["full"] }
reqwest = { version = "=0.12.28", default-features = false, features = ["json", "stream"] }
tokio-tungstenite = "=0.24.0"
futures = "=0.3.34"
axum = "=0.7.9"
console = "=0.15.11"
cliclack = "=0.3.8"
anyhow = "=1.0.104"
tracing = "=0.1.44"
