[package]
name = "audiobook-forge"
version = "2.9.1"
edition = "2021"
publish = false

[dependencies]
anyhow = "1"
clap = { version = "4", features = ["derive"] }
console = "0.15"
epub = "2"
inquire = "0.7"
num_cpus = "1"
regex = "1"
serde = { version = "1", features = ["derive"] }
serde_json = "1"
serde_yaml = "0.9"
tokio = { version = "1", features = ["process", "rt", "macros"] }
tracing = "0.1"
walkdir = "2"
