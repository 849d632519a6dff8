[package]
name = "codefactory"
version = "0.1.0"
edition = "2021"
publish = false

[dependencies]
sha2 = "=0.10.9"
chrono = { version = "=0.4.45", default-features = false, features = ["std", "alloc", "clock"] }
url = "=2.5.8"
base64 = "=0.22.1"
serde = { version = "=1.0.229", features = ["derive"] }
serde_json = "=1.0.154"

[dev-dependencies]
serde_json = "=1.0.154"
