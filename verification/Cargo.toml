[package]
name = "servicing"
version = "0.1.0"
edition = "2021"
publish = false

[dependencies]
base64 = "*"
reqwest = { version = "*", default-features = false }
tokio = { version = "*", features = ["rt-multi-thread", "time"] }
dirs = "*"
serde = { version = "*", features = ["derive"] }
serde_json = "*"
serde_yaml = "*"
futures = "*"
