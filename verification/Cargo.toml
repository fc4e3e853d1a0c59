[package]
name = "vtt"
version = "0.1.0"
edition = "2021"

[dependencies]
serde = "=1.0.229"

[dev-dependencies]
serde_json = "1"
