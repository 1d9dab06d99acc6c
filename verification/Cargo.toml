[package]
name = "ballast-survey"
version = "0.2.0"
edition = "2021"
publish = false

[dependencies]
anyhow = "1"
chrono = { version = "0.4", features = ["serde"] }
clap = { version = "4", features = ["derive"] }
humansize = "2"
serde = { version = "1", features = ["derive"] }
serde_json = "1"
walkdir = "2"
