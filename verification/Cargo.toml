[package]
name = "thermoscan"
version = "0.1.0"
edition = "2021"
publish = false

[dependencies]
hex = "*"
serde = { version = "*", features = ["derive"] }
serde_json = "*"
reqwest = { version = "*", default-features = false }
tokio = { version = "*", features = ["rt-multi-thread", "macros"] }
futures = "*"
btleplug = "*"
dotenv = "*"
pretty_env_logger = "*"
