[package]
name = "ezmusic"
version = "0.1.0"
edition = "2021"
publish = false

[dependencies]
anyhow = "1"
clap = { version = "4", features = ["derive"] }
cpal = "0.16"
crossbeam-channel = "0.5"
crossterm = "0.28"
directories = "6"
libc = "0.2"
rand = "0.9"
ratatui = "0.29"
rusqlite = { version = "0.37", features = ["bundled"] }
serde = { version = "1", features = ["derive"] }
serde_json = "1"
sha2 = "0.10"
symphonia = "*"
symphonia-adapter-libopus = "*"
toml = "0.9"
ureq = "2"
url = "2"
walkdir = "2"
