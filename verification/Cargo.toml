[package]
name = "mcbbs"
version = "0.1.0"
edition = "2021"
publish = false

[dependencies]
regex = "1"
chrono = "0.4"
tokio = { version = "0.2", features = ["full"] }
reqwest = { version = "0.10", default-features = false, features = ["rustls-tls"] }
webbrowser = "0.5"
