[package]
name = "pingenty"
version = "0.1.0"
edition = "2021"
publish = false

[dependencies]
anyhow = "=1.0.104"
clap = { version = "=4.6.7", features = ["derive"] }
crossterm = "=0.27.0"
hickory-resolver = "=0.24.4"
pnet = "=0.34.0"
ratatui = "=0.26.3"
socket2 = { version = "=0.5.10", features = ["all"] }
tokio = { version = "=1.54.1", features = ["full"] }
