[package]
name = "far"
version = "0.1.0"
edition = "2021"
publish = false

[dependencies]
regex = "1"
walkdir = "2"
ratatui = "0.29"
crossterm = "0.28"
color-eyre = "0.6"
