[package]
name = "chat_relay_core"
version = "0.1.0"
edition = "2021"
publish = false

[dependencies]
futures-channel = "0.3"
futures-util = { version = "0.3", features = ["sink"] }
tokio = { version = "1", features = ["rt-multi-thread", "macros", "net", "io-util", "io-std"] }
tokio-tungstenite = "*"
url = "2"
