[package]
name = "rusagent"
version = "0.1.0"
edition = "2021"
publish = false

[dependencies]
uuid = { version = "*", features = ["v4"] }
chrono = "*"
serde = { version = "*", features = ["derive"] }
serde_json = "*"
thiserror = "*"
tokio = { version = "*", features = ["rt", "rt-multi-thread", "sync", "time", "macros", "io-util", "io-std"] }
async-trait = "*"
tracing = "*"
once_cell = "*"
futures = "*"
