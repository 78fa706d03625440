[package]
name = "logship"
version = "0.1.0"
edition = "2021"
publish = false

[dependencies]
ring = "*"
serde_json = "*"
elasticsearch = "=7.17.7-alpha.1"
tokio = { version = "*", features = ["macros", "rt-multi-thread"] }
