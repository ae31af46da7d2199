[package]
name = "zwork_sidecar"
version = "0.1.0"
edition = "2021"
publish = false

[dependencies]
serde = { version = "=1.0.229", features = ["derive"] }
serde_json = "=1.0.154"
uuid = { version = "=1.29.0", features = ["v4", "v7"] }
dirs = "=7.0.0"
similar = "=2.7.0"
chrono = "=0.4.45"
regex = "=1.13.1"
base64 = "=0.22.1"
getrandom = "=0.4.3"
