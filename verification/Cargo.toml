[package]
name = "romscan"
version = "0.1.0"
edition = "2021"
publish = false

[dependencies]
anyhow = "1"
bitstream-io = "*"
clap = { version = "4", features = ["derive"] }
regex = "1"
