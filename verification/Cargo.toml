[package]
name = "ya-payment"
version = "0.3.0"
edition = "2021"
publish = false

[dependencies]
bigdecimal = "=0.2.2"
humantime = "=2.4.0"
ya-client-model = "=0.7.0"
chrono = "=0.4.45"
serde = { version = "=1.0.229", features = ["derive"] }
serde_json = "=1.0.154"
uuid = { version = "=1.29.0", features = ["v4"] }
tokio = { version = "1", default-features = false, features = ["sync"] }
