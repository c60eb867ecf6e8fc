[package]
name = "calendar"
version = "0.1.0"
edition = "2021"
publish = false

[dependencies]
chrono = "*"
ical = "*"
ratatui = "*"
crossterm = "*"
clap = { version = "*", features = ["derive"] }
anyhow = "*"
