[package]
name = "merges"
version = "0.1.0"
edition = "2021"
publish = false

[dependencies]
anyhow = "*"
clap = { version = "*", features = ["derive"] }
colored = "*"
comfy-table = "*"
dialoguer = "*"
git2 = "*"
indicatif = "*"
serde = { version = "*", features = ["derive"] }
serde_json = "*"
