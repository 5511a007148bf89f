[package]
name = "fmtwalk"
version = "0.1.0"
edition = "2021"
publish = false

[dependencies]
anyhow = "=1.0.104"
clap = { version = "=4.6.7", features = ["cargo"] }
crossterm = "=0.29.0"
superconsole = "=0.2.0"
yansi = "=1.0.1"
yara-x-fmt = "=1.22.0"
yara-x-parser = "=1.22.0"
