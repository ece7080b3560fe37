[package]
name = "cuvm"
version = "0.1.0"
edition = "2021"
publish = false

[dependencies]
anyhow = "1"
time = { version = "0.3", features = ["serde", "serde-well-known", "formatting", "parsing"] }
serde = { version = "1", features = ["derive"] }
serde_json = "1"
thiserror = "2"
clap = { version = "4", features = ["derive"] }
clap_complete = "4"
dirs = "*"
indicatif = "*"
