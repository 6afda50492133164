[package]
name = "cambia"
version = "0.1.0"
edition = "2021"
publish = false

[dependencies]
encoding_rs = "*"
serde_json = "*"
hex = "*"

[dev-dependencies]
base64 = "*"
sha2 = "*"
