[package]
name = "assemble_logs"
version = "0.1.0"
edition = "2021"
publish = false

[dependencies]
anyhow = "=1.0.104"
chrono = "=0.4.45"
clap = { version = "=4.6.7", features = ["derive"] }
file-rotate = "=0.8.0"
flate2 = "=1.1.10"
jq-rs = "=0.4.1"
serde_json = "=1.0.154"
termion = "=1.5.6"
