[package]
name = "channel_browser"
version = "0.1.0"
edition = "2021"
publish = false

[dependencies]
chrono = "0.4"
serde_json = "1"
crossterm = "0.25"
tui = "0.19"
signal-hook = "0.3"
