[package]
name = "f123_telemetry"
version = "0.1.0"
edition = "2021"
publish = false

[dependencies]
ahash = "*"
redis = "*"
