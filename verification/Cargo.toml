[package]
name = "honor"
version = "0.1.0"
edition = "2021"
publish = false

[dependencies]
anyhow = "1"
app_dirs = "1.2"
base64 = "0.13"
druid = { version = "0.7", features = ["im"] }
futures = "0.3"
regex = "1"
reqwest = { version = "0.11", features = ["json"] }
serde = { version = "1", features = ["derive"] }
serde_json = "1"
tokio = { version = "1", features = ["full"] }
tokio-native-tls = "0.3"
tokio-tungstenite = { version = "0.16", features = ["native-tls"] }
