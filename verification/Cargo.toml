[package]
name = "codeowners"
version = "0.1.0"
edition = "2021"
publish = false

[dependencies]
fast-glob = "*"
glob = "0.3"
regex = "1"
serde = { version = "1", features = ["derive"] }
serde_yaml = "0.9"
serde_json = "1"
clap = { version = "4", features = ["derive"] }
ignore = "0.4"
crossbeam-channel = "0.5"
path-clean = "*"
