[package]
name = "plcmon"
version = "0.1.0"
edition = "2021"
publish = false

[dependencies]
chrono = { version = "0.4", features = ["serde"] }
clap = { version = "4", features = ["derive"] }
crossterm = "*"
libc = "0.2"
pcap = "2"
ratatui = "*"
serde = { version = "1", features = ["derive"] }
serde_json = "1"
