[package]
name = "keri"
version = "0.1.0"
edition = "2021"
publish = false

[dependencies]
anyhow = "1"
cesride = "=0.6.4"
chrono = "=0.4.45"
parside = "=0.2.0"
serde = { version = "=1.0.229", features = ["derive"] }
serde_json = "=1.0.154"
zeroize = { version = "=1.9.1", features = ["derive"] }
