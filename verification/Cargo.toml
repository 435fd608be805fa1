[package]
name = "turtle_bridge"
version = "0.1.0"
edition = "2021"
publish = false

[dependencies]
cdr = "*"
serde = { version = "*", features = ["derive"] }
tokio = { version = "*", features = ["sync", "macros", "rt"] }
tokio-stream = "*"
zenoh = "*"
