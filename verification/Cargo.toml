[package]
name = "zeno"
version = "0.1.0"
edition = "2021"
publish = false

[dependencies]
anyhow = "1"
base64 = "=0.22.1"
chrono = "=0.4.45"
dirs = "=7.0.0"
futures = "0.3"
mlua = { version = "=0.10.5", features = ["lua54", "vendored", "send", "serialize"] }
regex = "=1.13.1"
serde = { version = "1", features = ["derive"] }
serde_json = "=1.0.154"
tokio = { version = "1", features = ["full"] }
tokio-util = "0.7"
