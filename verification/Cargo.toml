[package]
name = "promptbook"
version = "0.1.0"
edition = "2021"
publish = false

[dependencies]
serde = { version = "=1.0.229", features = ["derive"] }
serde_json = "=1.0.154"
objc2-app-kit = "0.3"
objc2-foundation = "0.3"
