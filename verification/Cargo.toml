[package]
name = "chata"
version = "0.1.0"
edition = "2021"
publish = false

[dependencies]
sha2 = "0.10"
rand = "0.8"
bincode = "1"
serde = { version = "1", features = ["derive"] }
chrono = "0.4"
colored = "2"
toml = "0.5"
