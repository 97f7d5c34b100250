[package]
name = "help_modal"
version = "0.1.0"
edition = "2021"
publish = false

[dependencies]
ratatui = "*"
crossterm = "*"
