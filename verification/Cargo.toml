[package]
name = "arxiv"
version = "0.1.0"
edition = "2021"
publish = false

[dependencies]
chrono = "*"
reqwest = { version = "*", default-features = false, features = ["blocking", "rustls-tls"] }
