[package]
name = "vchat"
version = "1.0.0"
edition = "2021"
publish = false

[dependencies]
base64 = "0.22"
hmac = "0.12"
serde_json = "1"
sha2 = "0.10"
tiny_http = "0.12"
