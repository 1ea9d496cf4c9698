[package]
name = "trellis"
version = "0.1.0"
edition = "2021"
publish = false

[dependencies]
regex = "1"
tokio-postgres = "0.7"
tracing = "0.1"
