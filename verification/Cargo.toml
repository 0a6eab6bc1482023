[package]
name = "upxto"
version = "0.1.0"
edition = "2021"

[dependencies]
crossterm = "*"
rusqlite = { version = "*", features = ["bundled"] }
