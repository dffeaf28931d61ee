[package]
name = "peek"
version = "0.1.0"
edition = "2021"
publish = false

[dependencies]
base64 = "0.22"
serde = { version = "1", features = ["derive"] }
serde_json = "1"
reqwest = { version = "0.12", features = ["json"] }
tokio = { version = "1", features = ["full"] }
futures = "0.3"
native-tls = "0.2"
tokio-tungstenite = { version = "0.26", features = ["native-tls"] }
discord-rich-presence = "*"
