[package]
name = "jobber"
version = "0.1.0"
edition = "2021"
publish = false

[dependencies]
chrono = "*"
clap = { version = "*", features = ["derive"] }
days-in-month = "*"
separator = "*"
serde = { version = "*", features = ["derive"] }
serde_json = "*"
