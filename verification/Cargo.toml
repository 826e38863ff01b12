[package]
name = "nugs"
version = "0.1.0"
edition = "2021"
publish = false

[dependencies]
regex = "=1.13.1"
serde = { version = "=1.0.229", features = ["derive"] }
serde_json = "=1.0.154"
nucleo-matcher = "=0.3.1"
chrono = "=0.4.45"
directories = "=5.0.1"
base64 = "0.22"
