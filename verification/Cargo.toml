[package]
name = "dupefind"
version = "0.3.0"
edition = "2021"
publish = false

[dependencies]
anyhow = "1"
base64 = "0.22"
bincode = { version = "2", features = ["serde"] }
blake3 = "1"
clap = { version = "4", features = ["derive"] }
crossbeam-channel = "0.5"
directories = "6"
humansize = "2"
ignore = "0.4"
ratatui = "0.30"
rayon = "1"
same-file = "1"
serde = { version = "1", features = ["derive"] }
serde_json = "1"
tempfile = "3"
trash = "5"
