[package]
name = "game-server"
version = "0.1.0"
edition = "2021"
publish = false

[dependencies]
ring = "0.17"
tokio = { version = "1", features = ["full"] }
wtransport = "0.7"
