[package]
name = "nuance"
version = "0.1.0"
edition = "2021"
publish = false

[dependencies]
clap = { version = "*", features = ["derive"] }
dirs = "*"
git2 = { version = "*", default-features = false }
hex = "*"
serde = { version = "*", features = ["derive"] }
sha2 = "*"
toml = "*"
walkdir = "*"
