[package]
name = "kodex"
version = "0.1.0"
edition = "2021"
publish = false

[dependencies]
uuid = { version = "=1.29.0", features = ["v4"] }
nucleo-matcher = "=0.3.1"
rusqlite = { version = "=0.41.1", features = ["bundled"] }
serde = { version = "=1.0.229", features = ["derive"] }
serde_json = "=1.0.154"
dirs = "=7.0.0"
clap = { version = "=4.6.7", features = ["derive"] }
regex-syntax = "0.8"
