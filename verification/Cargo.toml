[package]
name = "mido"
version = "0.1.0"
edition = "2021"
publish = false

[dependencies]
pulldown-cmark = { version = "=0.13.6", default-features = false }
emojis = "=0.9.1"
unicode-width = "=0.2.3"
nucleo-matcher = "=0.3.1"
mmdflux = "=2.6.1"
mermaid-text = "=0.57.0"
ignore = "=0.4.34"
clap = { version = "=4.6.7", features = ["derive"] }
anyhow = "=1.0.104"
serde = { version = "=1.0.229", features = ["derive"] }
toml = "1"
crossterm = "=0.29.0"
directories = "=6.0.0"
ratatui-core = "=0.1.2"
two-face = { version = "*", default-features = false, features = ["syntect-default-fancy"] }
