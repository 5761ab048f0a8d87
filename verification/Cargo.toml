[package]
name = "rfmt"
version = "0.1.0"
edition = "2021"
publish = false

[dependencies]
lru = "*"
serde = { version = "*", features = ["derive"] }
