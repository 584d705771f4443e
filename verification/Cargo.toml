[package]
name = "ante_passes"
version = "0.1.0"
edition = "2021"
publish = false

[dependencies]
dashmap = "6"
rustc-hash = "2"
serde = { version = "1", features = ["derive"] }
