[package]
name = "jepa"
version = "0.2.0"
edition = "2021"
publish = false

[dependencies]
sha2 = "=0.10.9"
subtle = "=2.6.1"
chrono = { version = "=0.4.45", default-features = false, features = ["clock", "std", "serde"] }
rand = "=0.10.3"
serde = { version = "=1.0.229", features = ["derive"] }
serde_json = "=1.0.154"
image = { version = "=0.25.10", default-features = false, features = ["gif", "png", "jpeg", "webp"] }
serialport = { version = "=4.10.1", default-features = false }
base64 = "=0.22.1"
thiserror = "=2.0.21"
clap = { version = "=4.6.7", features = ["derive", "env"] }
dirs = "=6.0.0"
reqwest = { version = "=0.12.28", default-features = false, features = ["blocking", "rustls-tls"] }
