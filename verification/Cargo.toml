[package]
name = "squirrel"
version = "0.1.0"
edition = "2021"
publish = false

[dependencies]
uuid = { version = "1", features = ["v4", "serde"] }
serde = { version = "1", features = ["derive"] }
serde_json = "1"
tokio = { version = "1", features = ["full"] }
reqwest = { version = "0.12", default-features = false }
log = "0.4"
simple_logger = "5"
rocket = { version = "0.5", features = ["json", "uuid"] }
