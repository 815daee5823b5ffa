[package]
name = "sleepy"
version = "0.1.0"
edition = "2021"
publish = false

[dependencies]
humantime = "*"
actix-web = "*"
actix-files = "*"
anyhow = "*"
chrono = { version = "*", features = ["serde"] }
csv = "*"
serde = { version = "*", features = ["derive"] }
tokio = { version = "*", features = ["fs", "sync"] }
