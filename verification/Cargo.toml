[package]
name = "octo_webhooks"
version = "0.1.0"
edition = "2021"
publish = false

[dependencies]
reqwest = { version = "0.12", default-features = false, features = ["rustls-tls"] }
serde_json = "1"
tokio = { version = "1", features = ["time", "rt"] }
tracing = "0.1"
url = "2"
uuid = "1"
