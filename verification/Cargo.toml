[package]
name = "device_dashboard"
version = "0.1.0"
edition = "2021"
publish = false

[dependencies]
chrono = "*"
axum = "*"
reqwest = { version = "*", default-features = false, features = ["rustls-tls"] }
tokio = { version = "*", features = ["macros", "rt", "net"] }
listenfd = "*"
tower-http = { version = "*", features = ["fs"] }
