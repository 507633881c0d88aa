[package]
name = "zebras"
version = "0.1.0"
edition = "2021"
publish = false

[dependencies]
serde = { version = "1", features = ["derive"] }
serde_json = "1"
image = "*"
reqwest = { version = "*", default-features = false, features = ["blocking", "multipart"] }
