[package]
name = "service"
version = "0.1.0"
edition = "2021"
publish = false

[dependencies]
chrono = "*"
tokio = { version = "*", features = ["macros", "rt-multi-thread", "time"] }
reqwest = { version = "*", default-features = false }
config = "*"
async-mutex = "*"
tracing = "*"
tracing-subscriber = "*"
serde_json = "*"
