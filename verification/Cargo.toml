[package]
name = "reworkspace"
version = "0.1.0"
edition = "2021"
publish = false

[dependencies]
dirs = "=7.0.0"
serde = { version = "=1.0.229", features = ["derive"] }
serde_json = "=1.0.154"
base64 = "=0.22.1"
libc = "=0.2.191"
trash = "=5.2.9"
png = "0.18"
