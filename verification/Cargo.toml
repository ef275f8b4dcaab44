[package]
name = "live_inputs"
version = "0.1.0"
edition = "2021"
publish = false

[dependencies]
anyhow = "1"
cpal = "0.14"
futures = "0.3"
log = "0.4"
midir = "0.9"
rustfft = "6"
serde = { version = "1", features = ["derive"] }
serde_json = "1"
