[package]
name = "shelf"
version = "0.1.0"
edition = "2021"
publish = false

[dependencies]
regex = "=1.13.1"
zhconv = "=0.3.3"
sha2 = "=0.10.9"
rand = "=0.8.8"
argon2 = { version = "=0.5.3", features = ["std"] }
chrono = "=0.4.45"
base64 = "=0.22.1"
uuid = { version = "=1.29.0", features = ["v4"] }
serde = { version = "=1.0.229", features = ["derive"] }
serde_json = "=1.0.154"
thiserror = "=1.0.69"
parking_lot = "=0.12.5"
crossbeam-channel = "=0.5.17"
image = "0.25"
qrcode = "0.14"
