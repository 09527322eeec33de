[package]
name = "audio_client"
version = "0.1.0"
edition = "2021"
publish = false

[dependencies]
crossbeam-channel = "0.5"
rocket = { version = "0.5", features = ["json"] }
serde_json = "1"
