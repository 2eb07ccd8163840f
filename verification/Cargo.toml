[package]
name = "mportal"
version = "0.1.0"
edition = "2021"
publish = false

[dependencies]
dirs = "*"
serde = { version = "1", features = ["derive"] }
toml = "*"
chrono = "0.4"
notify-rust = "4"
notify = "*"
clap = { version = "4", features = ["derive"] }
