[package]
name = "incrementalmerkletree"
version = "0.1.0"
edition = "2021"
publish = false

[dependencies]
either = "1"
serde = { version = "1", features = ["derive"] }
