[package]
name = "depthview"
version = "0.1.0"
edition = "2021"
publish = false

[dependencies]
crossterm = "*"
itertools = "*"
log = "*"
ratatui = "*"
serde = { version = "*", features = ["derive"] }
serde_json = "*"
textwrap = "*"
uuid = { version = "*", features = ["v4"] }
