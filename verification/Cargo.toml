[package]
name = "eos_use"
version = "0.1.0"
edition = "2021"
publish = false

[dependencies]
serde = { version = "1", features = ["derive"] }
serde_json = "1"
ron = "0.8"
parking_lot = "0.12"
libloading = "0.8"
futures = "0.3"
mopa = "0.2"
