[package]
name = "rust_sync"
version = "0.1.0"
edition = "2021"
publish = false

[dependencies]
anyhow = "1"
aws-config = "1"
aws-sdk-s3 = "1"
chrono = "0.4"
regex = "1"
serde = { version = "1", features = ["derive"] }
tokio = { version = "1", features = ["rt-multi-thread", "time", "macros"] }
toml = "0.8"
walkdir = "2"
