[package]
name = "benssh"
version = "0.1.0"
edition = "2021"
publish = false

[dependencies]
unicode-width = "0.1"
vt100 = "0.15"
crossterm = "0.27"
ratatui = "0.26"
tokio = { version = "1", features = ["rt-multi-thread", "macros", "sync"] }
reqwest = { version = "0.12", default-features = false, features = ["json", "rustls-tls"] }
serde = { version = "1", features = ["derive"] }
serde_json = "1"
dialoguer = "0.11"
dirs = "5"
portable-pty = "0.8"
rfd = "0.14"
ssh2 = "0.9"
