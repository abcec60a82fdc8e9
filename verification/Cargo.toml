[package]
name = "booktop"
version = "0.1.0"
edition = "2021"
publish = false

[dependencies]
clap = { version = "4", features = ["derive"] }
crossterm = "0.27"
rand = "0.8"
ratatui = "0.26"
serde = { version = "1", features = ["derive"] }
serde_yaml = "0.9"
