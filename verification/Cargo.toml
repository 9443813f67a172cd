[package]
name = "lanmap"
version = "0.3.0"
edition = "2021"
publish = false

[dependencies]
ipnetwork = "0.20"
tokio = { version = "1", features = ["rt-multi-thread", "macros", "time", "process"] }
surge-ping = "0.8"
dns-lookup = "2"
network-interface = "*"
ratatui = "0.29"
crossterm = "0.28"
anyhow = "1"
