[package]
name = "comhra"
version = "0.1.0"
edition = "2021"
publish = false

[dependencies]
dirs = "*"
ollama-rs = { version = "*", features = ["stream"] }
tokio = { version = "*", features = ["rt-multi-thread", "macros"] }
tokio-stream = "*"

[dev-dependencies]
serde_json = "*"
