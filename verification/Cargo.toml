[package]
name = "smo_relay"
version = "0.1.0"
edition = "2021"
publish = false

[dependencies]
anyhow = "*"
bytes = "*"
futures = "*"
tokio = { version = "*", features = ["full"] }
tracing = "*"
uuid = { version = "*", features = ["v4"] }
