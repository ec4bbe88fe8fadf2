[package]
name = "hexwar"
version = "0.1.0"
edition = "2021"
publish = false

[dependencies]
pathfinding = "*"
rand = "0.9"
serde = { version = "1", features = ["derive"] }
serde_json = "1"
