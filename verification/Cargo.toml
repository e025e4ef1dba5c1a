[package]
name = "hotlist"
version = "0.1.0"
edition = "2021"
publish = false

[dependencies]
url = "*"
chrono = "*"
argh = "*"
serde = { version = "*", features = ["derive"] }
serde_json = "*"
