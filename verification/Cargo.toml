[package]
name = "scriba_rs"
version = "0.1.0"
edition = "2021"
publish = false

[dependencies]
dirs = "6"
anyhow = "1"
serde = { version = "1", features = ["derive"] }
reqwest = { version = "0.12", features = ["blocking"] }
cpal = "0.15"
whisper-rs = "0.15"
