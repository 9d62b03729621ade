[package]
name = "rit"
version = "0.2.2"
edition = "2021"
publish = false

[dependencies]
anyhow = "1"
chrono = "0.4"
clap = { version = "4", features = ["derive"] }
compact_str = "*"
crossbeam-channel = "0.5"
crossterm = "*"
gix = { version = "*", features = ["blame"] }
imara-diff = "*"
ratatui = "*"
rayon = "1"
unicode-width = "*"

[dev-dependencies]
tempfile = "3"
