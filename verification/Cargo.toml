[package]
name = "radar_filter"
version = "0.1.0"
edition = "2021"
publish = false

[dependencies]
axum = "*"
chrono = "*"
serde = { version = "*", features = ["derive"] }
socketioxide = { version = "*", features = ["state"] }
tokio = { version = "*", features = ["macros", "rt-multi-thread", "net", "sync"] }
tracing = "*"
tracing-subscriber = "*"
