[package]
name = "dir_scanner"
version = "0.1.0"
edition = "2021"
publish = false

[dependencies]
event-listener = "2.5.3"
serde = { version = "1", features = ["derive"] }
serde_json = "1"
tokio = { version = "1", features = ["fs", "rt", "rt-multi-thread", "sync"] }
