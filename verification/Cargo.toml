[package]
name = "ralli"
version = "0.1.0"
edition = "2021"
publish = false

[dependencies]
reqwest = { version = "*", features = ["blocking", "json"] }
serde = { version = "1", features = ["derive"] }
