[package]
name = "blur"
version = "0.1.0"
edition = "2021"
publish = false

[dependencies]
crossterm = "=0.29.0"
opaline = { version = "=0.4.2", features = ["syntect"] }
ratatui = "=0.30.2"
syntect = { version = "=5.3.0", default-features = false, features = ["default-fancy"] }
unicode-width = "=0.2.3"
