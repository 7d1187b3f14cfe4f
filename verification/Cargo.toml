[package]
name = "string_wrapper"
version = "0.3.1"
edition = "2021"
publish = false

[dependencies]
serde = "1"

[dev-dependencies]
serde_json = "1"
