[package]
name = "cc_sakura_line"
version = "0.1.0"
edition = "2021"
publish = false

[dependencies]
unicode-width = "0.2"
serde_json = "1"
anyhow = "1"
crossterm = "0.28"
ratatui = "0.29"
