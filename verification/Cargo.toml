[package]
name = "battmon"
version = "0.1.0"
edition = "2021"
publish = false

[dependencies]
btleplug = "*"
clap = { version = "4", features = ["derive"] }
serde = { version = "1", features = ["derive"] }
serde_json = "1"
tokio = { version = "1", features = ["full"] }
tokio-stream = "*"
