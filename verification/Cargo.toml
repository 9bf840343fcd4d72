[package]
name = "copilot_context"
version = "0.1.0"
edition = "2021"
publish = false

[dependencies]
glob = "*"
anyhow = "*"
arboard = "*"
atty = "*"
clap = { version = "*", features = ["derive"] }
reqwest = { version = "*", default-features = false, features = ["blocking"] }
serde = { version = "*", features = ["derive"] }
toml = "*"
walkdir = "*"
