[package]
name = "pithos"
version = "0.1.0"
edition = "2021"
publish = false

[dependencies]
clap = { version = "4", features = ["derive"] }
console = "0.15"
dirs = "6"
eyre = "0.6"
indicatif = "*"
rayon = "1"
reflink-copy = "0.1"
serde = { version = "1", features = ["derive"] }
serde_json = "1"
signal-hook = "0.3"
tempfile = "3"
toml = "0.8"
tracing = "0.1"
tracing-indicatif = "*"
tracing-subscriber = { version = "0.3", features = ["env-filter"] }
