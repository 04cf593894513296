[package]
name = "chat"
version = "0.1.0"
edition = "2021"
publish = false

[dependencies]
uuid = { version = "*", features = ["v4"] }
tokio = { version = "*", features = ["full"] }
tokio-tungstenite = "*"
futures-util = "*"
clap = { version = "*", features = ["derive"] }
