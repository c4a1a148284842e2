[package]
name = "cashlog"
version = "0.1.0"
edition = "2021"
publish = false

[dependencies]
uuid = { version = "0.8", features = ["v4"] }
serde = { version = "1", features = ["derive"] }
toml = { version = "0.5" }
