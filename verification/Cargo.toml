[package]
name = "wool"
version = "0.1.0"
edition = "2021"
publish = false

[dependencies]
regex = "=1.13.1"
serde = { version = "=1.0.229", features = ["derive"] }
serde_json = "=1.0.154"
xxhash-rust = { version = "0.8", features = ["xxh3"] }
anyhow = "=1.0.104"

[dev-dependencies]
bincode = "2"
