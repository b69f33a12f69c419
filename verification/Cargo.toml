[package]
name = "smart_cache"
version = "0.1.0"
edition = "2021"
publish = false

[dependencies]
arc-swap = "*"
chrono = "*"
crossbeam = "*"
parking_lot = "*"
rand = "*"
serde = { version = "*", features = ["derive"] }
serde_json = "*"
threadpool = "*"
