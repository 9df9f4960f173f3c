[package]
name = "kafka_term"
version = "0.1.0"
edition = "2021"
publish = false

[dependencies]
crossterm = "0.28"
ratatui = "0.29"
ssh2 = "0.9"
tempfile = "3"
