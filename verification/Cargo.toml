[package]
name = "turbo_tasks"
version = "0.1.0"
edition = "2021"
publish = false

[dependencies]
parking_lot = "*"
lock_api = "*"
anyhow = "*"
tokio = { version = "*", features = ["rt", "rt-multi-thread", "macros"] }
tracing = "*"
serde = { version = "*", features = ["derive"] }
