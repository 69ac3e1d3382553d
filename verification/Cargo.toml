[package]
name = "stratuscode"
version = "0.1.0"
edition = "2021"
publish = false

[dependencies]
anyhow = "1"
arboard = "3"
base64 = "0.22"
clap = { version = "4", features = ["derive"] }
crossterm = "0.27"
image = { version = "0.24", default-features = false, features = ["png"] }
pulldown-cmark = { version = "0.9", default-features = false }
ratatui = "0.26"
serde = { version = "1", features = ["derive"] }
serde_json = "1"
textwrap = "0.16"
unicode-width = "0.1"
walkdir = "2"
