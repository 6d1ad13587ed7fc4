[package]
name = "cycbox"
version = "0.1.0"
edition = "2021"
publish = false

[dependencies]
bytes = "=1.12.1"
encoding_rs = "=0.8.44"
serde_json = "=1.0.154"
chrono = { version = "=0.4.45", default-features = false, features = ["clock"] }

[dev-dependencies]
crc = "=3.4.0"
