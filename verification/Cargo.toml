[package]
name = "ipa"
version = "0.1.0"
edition = "2021"
publish = false

[dependencies]
clap = "2"
log = "0.4"
serde = { version = "1", features = ["derive"] }
serde_yaml = "0.8"
shellexpand = "2"
stderrlog = "0.5"

[dev-dependencies]
tempfile = "3"
