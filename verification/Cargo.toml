[package]
name = "rtwkit"
version = "0.1.0"
edition = "2021"
publish = false

[dependencies]
base64 = "=0.22.1"
crc32fast = "=1.5.4"
flate2 = "=1.1.10"
httparse = "=1.10.1"
semver = "=1.0.28"
serde = { version = "=1.0.229", features = ["derive"] }
serde_json = "=1.0.154"
sha1 = "=0.10.7"
sha2 = "=0.10.9"
toml = "=0.9.8"
