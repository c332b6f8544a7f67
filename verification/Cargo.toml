[package]
name = "caliber"
version = "0.1.0"
edition = "2021"
publish = false

[dependencies]
unicode-width = "0.1"
chrono = "0.4"
serde = { version = "1", features = ["derive"] }
toml = "0.8"
dirs = "5"
