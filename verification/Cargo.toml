[package]
name = "spop"
version = "0.1.0"
edition = "2021"
publish = false

[dependencies]
bytes = "1"
semver = "1"
tokio-util = { version = "0.7", features = ["codec"] }
