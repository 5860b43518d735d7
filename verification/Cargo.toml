[package]
name = "helix_graph"
version = "0.1.0"
edition = "2021"
publish = false

[dependencies]
uuid = { version = "1", features = ["v4"] }
serde = { version = "1", features = ["derive"] }
serde_json = "1"
flume = "0.11"
chrono = "0.4"
rand = "0.8"
