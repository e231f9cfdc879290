[package]
name = "achievement_progress"
version = "0.1.0"
edition = "2021"
publish = false

[dependencies]
starknet = "0.9"
mongodb = "2"
axum = "0.6"
futures = "0.3"
serde = { version = "1", features = ["derive"] }
