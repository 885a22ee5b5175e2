[package]
name = "gguf_cleaner"
version = "0.1.0"
edition = "2021"
publish = false

[dependencies]
anyhow = "*"
crossterm = "*"
ignore = "*"
num_cpus = "*"
ratatui = "*"
