[package]
name = "torygg"
version = "0.1.0"
edition = "2021"
publish = false

[dependencies]
anyhow = "1"
clap = { version = "4", features = ["derive"] }
dialoguer = "*"
dirs = "*"
execute = "*"
infer = "*"
log = "0.4"
serde = { version = "1", features = ["derive"] }
simplelog = "*"
tempfile = "3"
termcolor = "1"
thiserror = "*"
toml = "*"
typed-path = "*"
unicase = "2"
walkdir = "2"
xml-rs = "*"
