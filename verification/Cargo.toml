[package]
name = "http_management"
version = "0.1.0"
edition = "2021"
publish = false

[dependencies]
chrono = "=0.4.45"
rand = "=0.10.3"
serde = { version = "=1.0.229", features = ["derive"] }
serde_json = "=1.0.154"
hyper = "=1.12.0"
tokio = { version = "=1.54.1", features = ["full"] }
rev_lines = "=0.3.0"
form_urlencoded = "1"
