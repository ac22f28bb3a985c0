[package]
name = "ac-client"
version = "0.1.0"
edition = "2021"
publish = false

[dependencies]
glam = "0.29"
serde = { version = "1", features = ["derive"] }
serde_json = "1"
tracing = "0.1"
