[package]
name = "sync_core"
version = "0.1.0"
edition = "2021"
publish = false

[dependencies]
rand = "0.8"
chrono = "0.4"
serde = { version = "1", features = ["derive"] }
serde_json = "1"
hyper = { version = "0.14", features = ["server", "http1", "tcp"] }
futures = "0.3"
cursive = "0.21"
