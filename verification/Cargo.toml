[package]
name = "ramo"
version = "0.1.0"
edition = "2021"
publish = false

[dependencies]
crossterm = "0.28"
log = "0.4"
ratatui = "0.29"
serde = { version = "1", features = ["derive"] }
serde_json = "1"
