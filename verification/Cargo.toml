[package]
name = "degreepath"
version = "0.1.0"
edition = "2021"
publish = false

[dependencies]
askama_escape = "*"
clap = { version = "*", features = ["derive"] }
csv = "*"
itertools = "*"
rusqlite = { version = "*", features = ["bundled"] }
serde = { version = "*", features = ["derive"] }
serde_json = "*"
serde_path_to_error = "*"
serde_yaml = "*"
