[package]
name = "fal_rust"
version = "0.1.0"
edition = "2021"
publish = false

[dependencies]
dotenvy = "0.15"
reqwest = { version = "0.11", features = ["json"] }
serde = "1"
