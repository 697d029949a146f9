[package]
name = "reprise"
version = "0.1.0"
edition = "2021"
publish = false

[dependencies]
rschess = "*"
chrono = "0.4"
serde = { version = "1", features = ["derive"] }
serde_json = "1"
ureq = "3"
anyhow = "1"
