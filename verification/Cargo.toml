[package]
name = "harper_core"
version = "0.1.0"
edition = "2021"
publish = false

[dependencies]
itertools = "0.13"
serde = { version = "1", features = ["derive"] }
