[package]
name = "containers"
version = "0.1.0"
edition = "2021"
publish = false

[dependencies]
ssz_rs = "*"
serde = { version = "1", features = ["derive"] }
serde_yaml = "0.9"

[dev-dependencies]
sha2 = "0.10"
