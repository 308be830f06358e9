[package]
name = "blindfold"
version = "0.1.0"
edition = "2021"
publish = false

[dependencies]
serde_json = "=1.0.154"
near-sdk = { version = "=5.29.1", features = ["non-contract-usage"] }
