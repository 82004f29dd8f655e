[package]
name = "roll_flow"
version = "0.1.0"
edition = "2021"
publish = false

[dependencies]
anyhow = "1"
clap = { version = "4", features = ["derive"] }
crossterm = "*"
ratatui = "*"
serde = { version = "1", features = ["derive"] }
serde_json = "1"
thiserror = "*"
time = { version = "0.3", features = ["local-offset", "formatting", "macros"] }
toml = "*"
