[package]
name = "url_relay"
version = "0.1.0"
edition = "2021"
publish = false

[dependencies]
anyhow = "1"
chrono = { version = "0.4", default-features = false, features = ["std"] }
frankenstein = { version = "*", features = ["client-ureq"] }
scraper = "*"
serde_json = "1"
tempfile = "3"
ureq = "3"
