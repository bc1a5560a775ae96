[package]
name = "sharkbench"
version = "0.1.0"
edition = "2021"
publish = false

[dependencies]
indexmap = "2"
axum = "0.7"
serde = { version = "1", features = ["derive"] }
tokio = { version = "1", features = ["full"] }
