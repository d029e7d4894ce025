[package]
name = "hivebox"
version = "0.1.0"
edition = "2021"
publish = false

[dependencies]
sled = "0.34"
serde = { version = "1", features = ["derive"] }
pot = "*"
bincode = "1"
