[package]
name = "lysand_core"
version = "0.1.0"
edition = "2021"
publish = false

[dependencies]
chrono = "*"
reqwest = { version = "*", default-features = false }

[dev-dependencies]
serde_json = "*"
