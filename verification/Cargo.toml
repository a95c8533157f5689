[package]
name = "phog"
version = "0.1.0"
edition = "2021"
publish = false

[dependencies]
anyhow = "*"
clap = { version = "*", features = ["derive"] }
curl = "*"
dirs = "*"
egg-mode = "0.16"
hyper = "0.14"
linkify = "*"
regex = "*"
rusqlite = { version = "*", features = ["bundled"] }
serde = { version = "*", features = ["derive"] }
serde_json = "*"
tokio = { version = "*", features = ["rt-multi-thread"] }
toml = "*"
url = "*"
