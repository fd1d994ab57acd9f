[package]
name = "ordplan"
version = "0.1.0"
edition = "2021"
publish = false

[dependencies]
bitcoin = { version = "=0.29.2", features = ["rand"] }
serde = { version = "1", features = ["derive"] }
serde_json = "1"
anyhow = "1"
