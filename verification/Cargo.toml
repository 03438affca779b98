[package]
name = "thar"
version = "0.1.0"
edition = "2021"
publish = false

[dependencies]
url = { version = "2", features = ["serde"] }
serde = { version = "1", features = ["derive"] }
serde_json = "1"
time = { version = "0.3", features = ["serde", "serde-well-known", "formatting", "parsing"] }
clap = { version = "4", features = ["derive"] }
libc = "0.2"
