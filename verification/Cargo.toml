[package]
name = "kiosk"
version = "0.1.0"
edition = "2021"
publish = false

[dependencies]
dirs = "*"
fuzzy-matcher = "0.3"
unicode-segmentation = "1"
unicode-width = "0.2"
ratatui = "*"
crossterm = "*"
serde = { version = "1", features = ["derive"] }
toml = "*"
anyhow = "1"
