[package]
name = "benclaude"
version = "0.2.0"
edition = "2021"
publish = false

[dependencies]
anyhow = "1"
chrono = "0.4"
ratatui = "0.29"
serde_json = "1"
