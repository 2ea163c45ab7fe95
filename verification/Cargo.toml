[package]
name = "promi"
version = "0.1.0"
edition = "2021"
publish = false

[dependencies]
chrono = { version = "0.4", default-features = false, features = ["std"] }
quick-xml = "0.18"
thiserror = "1.0"
