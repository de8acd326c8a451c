[package]
name = "box_cli"
version = "0.1.0"
edition = "2021"
publish = false

[dependencies]
anyhow = "=1.0.104"
chrono = "=0.4.45"
clap = { version = "=4.6.7", features = ["derive", "env"] }
self_update = { version = "=1.3.3", default-features = false, features = ["rustls", "ureq", "github"] }
