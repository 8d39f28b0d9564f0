[package]
name = "netherite"
version = "0.1.0"
edition = "2021"
publish = false

[dependencies]
bytes = "1"
flate2 = "1"
thiserror = "1"
tokio-util = { version = "0.7", features = ["codec"] }
