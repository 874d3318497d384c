[package]
name = "traza"
version = "0.1.0"
edition = "2021"
publish = false

[dependencies]
blake3 = "1"
chrono = "0.4"
clap = { version = "4", features = ["derive"] }
dirs = "*"
html-escape = "0.2"
rusqlite = { version = "*", features = ["bundled"] }
webbrowser = "*"
