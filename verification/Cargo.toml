[package]
name = "cold"
version = "0.1.0"
edition = "2021"
publish = false

[dependencies]
clap = { version = "*", features = ["derive"] }
log = "*"
memmap2 = "*"
simplelog = "*"
