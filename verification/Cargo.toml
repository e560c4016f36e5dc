[package]
name = "jobq"
version = "0.1.0"
edition = "2021"
publish = false

[dependencies]
async-stream = "*"
async-timer = "*"
async-trait = "*"
futures = "*"
serde = { version = "*", features = ["derive"] }
serde_json = "*"
sqlx = { version = "*", default-features = false, features = ["runtime-tokio", "sqlite"] }
tokio = { version = "*", features = ["rt-multi-thread", "macros", "time", "sync"] }
