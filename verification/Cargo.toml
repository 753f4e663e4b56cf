[package]
name = "csp_editor"
version = "0.1.0"
edition = "2021"
publish = false

[dependencies]
regex = "=1.13.1"
ratatui = "=0.29.0"
crossterm = "=0.28.1"
copypasta = "0.10"
