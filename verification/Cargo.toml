[package]
name = "gitat"
version = "0.1.0"
edition = "2021"
publish = false

[dependencies]
similar = "2"
unicode-width = "0.2"
ratatui = "0.29"
crossterm = "0.28"
anyhow = "1"
thiserror = "2"
