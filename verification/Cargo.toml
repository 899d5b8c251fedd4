[package]
name = "speakstream"
version = "0.1.0"
edition = "2021"
publish = false

[dependencies]
sentence = "*"
serde_json = "*"
serde = { version = "*", features = ["derive"] }
reqwest = { version = "*", default-features = false, features = ["json", "stream"] }
tokio = { version = "*", features = ["full"] }
tokio-stream = "*"
chrono = "*"
