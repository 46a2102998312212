[package]
name = "shepherd"
version = "0.1.0"
edition = "2021"
publish = false

[dependencies]
anyhow = "*"
arc-swap = "*"
chrono = "*"
crossbeam-channel = "*"
crossterm = "*"
dirs = "*"
portable-pty = "*"
ratatui = "*"
serde = { version = "*", features = ["derive"] }
serde_json = "*"
vt100 = "*"
