[package]
name = "seribot"
version = "0.1.0"
edition = "2021"
publish = false

[dependencies]
chrono = "0.4"
feed-rs = "*"
futures = "0.3"
ihex = "3"
reqwest = "0.12"
serde = { version = "1", features = ["derive"] }
serialport = { version = "4", default-features = false }
tokio = { version = "1", features = ["macros", "rt-multi-thread"] }
toml = "*"
