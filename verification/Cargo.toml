[package]
name = "ebb"
version = "0.1.0"
edition = "2021"
publish = false

[dependencies]
anyhow = "*"
chrono = "*"
clap = { version = "*", features = ["derive", "env"] }
clap-markdown = "*"
humantime = "*"
serde = { version = "*", features = ["derive"] }
serde_json = "*"
shellexpand = "*"
tabled = "*"
toml = "*"
