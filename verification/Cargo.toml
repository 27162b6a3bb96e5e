[package]
name = "zentop"
version = "0.1.0"
edition = "2021"
publish = false

[dependencies]
anyhow = "=1.0.104"
clap = { version = "=4.5.61", features = ["derive"] }
crossterm = "=0.28.1"
hwlocality = "=1.0.0-alpha.13"
ratatui = "=0.29.0"
sysinfo = "=0.30.13"
