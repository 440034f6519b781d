[package]
name = "andycoin"
version = "0.1.0"
edition = "2021"
publish = false

[dependencies]
dashmap = "*"
chrono = "*"
rand = "*"
serde = { version = "*", features = ["derive"] }
serde_yaml = "*"
