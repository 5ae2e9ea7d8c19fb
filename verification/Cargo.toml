[package]
name = "objdet"
version = "0.1.0"
edition = "2021"
publish = false

[dependencies]
opencv = "*"
serde = { version = "*", features = ["derive"] }
serde_json = "*"
