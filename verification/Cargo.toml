[package]
name = "tesse_rs"
version = "0.1.0"
edition = "2021"
publish = false

[dependencies]
vte = "*"
crossterm = "*"
ratatui = "*"
portable-pty = "*"
tokio = { version = "*", features = ["rt-multi-thread", "macros"] }
