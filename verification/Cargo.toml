[package]
name = "veda_az"
version = "0.1.0"
edition = "2021"
publish = false

[dependencies]
chrono = "0.4"
crc32fast = "1"
heed = "0.20"
nng = "1"
rand = "0.9"
serde = { version = "1", features = ["derive"] }
serde_json = "1"
