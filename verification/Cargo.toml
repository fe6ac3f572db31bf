[package]
name = "fino"
version = "0.1.0"
edition = "2021"
publish = false

[dependencies]
csv = "1"
uuid = { version = "1", features = ["v4"] }
rusqlite = { version = "0.32", features = ["bundled"] }
crossterm = "0.28"
ratatui = "0.29"
