[package]
name = "observatory"
version = "0.1.0"
edition = "2021"
publish = false

[dependencies]
serde_json = { version = "1", features = ["preserve_order"] }
serde_yaml = "0.9"
chrono = "0.4"
clap = { version = "4", features = ["derive"] }
libc = "0.2"
