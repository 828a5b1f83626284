[package]
name = "notemac"
version = "0.1.0"
edition = "2021"
publish = false

[dependencies]
base64 = "=0.23.1"
keyring = "=3.6.3"
serde = { version = "=1.0.229", features = ["derive"] }
serde_json = "=1.0.151"
