[package]
name = "roe"
version = "0.1.0"
edition = "2021"
publish = false

[dependencies]
serde_json = "1"
serde_yaml = "0.9"
toml = "0.8"
roxmltree = "0.20"
arboard = "3"
color-eyre = "0.6"
crossterm = "0.28"
ratatui = "0.29"
tui-textarea = "0.7"
