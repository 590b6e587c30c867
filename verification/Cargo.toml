[package]
name = "codenames"
version = "0.1.0"
edition = "2021"
publish = false

[dependencies]
rand = "=0.8.5"
uuid = { version = "1", features = ["v4"] }
mio = { version = "0.8", features = ["os-poll", "net"] }
tungstenite = "0.20"

[dev-dependencies]
serde_json = "1"
