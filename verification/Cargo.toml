[package]
name = "dar"
version = "0.1.0"
edition = "2021"
publish = false

[dependencies]
anyhow = "1"
clap = { version = "4", features = ["derive"] }
crossterm = "0.27"
directories = "5"
globset = "0.4"
ratatui = "0.26"
serde = { version = "1", features = ["derive"] }
serde_json = "1"
thiserror = "1"
throbber-widgets-tui = "0.4"
tokio = { version = "1", features = ["full"] }
toml = "0.8"
walkdir = "2"
