[package]
name = "ser2tcp_tester"
version = "0.1.0"
edition = "2021"
publish = false

[dependencies]
anyhow = "1"
clap = { version = "4", features = ["cargo"] }
ctrlc = "3"
serialport = { version = "4", default-features = false }
