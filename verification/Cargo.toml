[package]
name = "rv_raven"
version = "0.1.0"
edition = "2021"
publish = false

[dependencies]
chrono = "*"
anyhow = "*"
clap = { version = "*", features = ["derive"] }
serde = { version = "*", features = ["derive"] }
toml = "*"
homedir = "*"
