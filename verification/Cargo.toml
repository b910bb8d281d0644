[package]
name = "redit"
version = "0.1.0"
edition = "2021"
publish = false

[dependencies]
crossterm = "*"
ratatui = "*"
syntect = { version = "*", default-features = false, features = ["default-fancy"] }
