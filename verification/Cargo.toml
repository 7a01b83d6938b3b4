[package]
name = "sftp-download"
version = "0.1.0"
edition = "2021"
publish = false

[dependencies]
indicatif = "0.17"
anyhow = "1"
clap = { version = "4", features = ["derive", "env"] }
serde = { version = "1", features = ["derive"] }
serde_json = "1"
serde_yaml = "0.9"
toml = "0.8"
thiserror = "1"
tokio = { version = "1", features = ["full"] }
russh = "0.44"
russh-keys = "0.44"
russh-sftp = "2"
async-trait = "0.1"
tracing = "0.1"
tracing-subscriber = "0.3"
