[package]
name = "opfer"
version = "0.1.0"
edition = "2021"
publish = false

[dependencies]
base64 = "=0.22.1"
log = "=0.4.35"
nokhwa = { version = "0.10", features = ["input-native"] }
rxing = "0.8"
serde = { version = "=1.0.229", features = ["derive"] }
