[package]
name = "relaybar"
version = "0.1.0"
edition = "2021"
publish = false

[dependencies]
gtk4 = "=0.11.5"
ksni = { version = "=0.3.7", features = ["blocking"] }
serde = { version = "=1.0.229", features = ["derive"] }
serde_json = "=1.0.154"
uuid = { version = "=1.29.0", features = ["serde", "v4"] }
