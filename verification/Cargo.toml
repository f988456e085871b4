[package]
name = "checkers_backend"
version = "0.1.0"
edition = "2021"
publish = false

[dependencies]
regex = "1"
base64 = "0.22"
serde = { version = "1", features = ["derive"] }
serde_json = "1"
async-process = "2"
futures-lite = "2"
envconfig = "*"
