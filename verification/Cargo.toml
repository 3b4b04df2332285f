[package]
name = "hirust"
version = "0.1.0"
edition = "2021"
publish = false

[dependencies]
chrono = "0.4"
rust-crypto = "0.2.36"
rand = "0.7"
reqwest = "0.9"
serde = { version = "1", features = ["derive"] }
serde_json = "1"
pbr = "1"
