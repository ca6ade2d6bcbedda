[package]
name = "snarkos_network"
version = "0.1.0"
edition = "2021"
publish = false

[dependencies]
hex = "*"
chrono = "*"
tokio = { version = "*", features = ["full"] }
