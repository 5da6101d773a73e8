[package]
name = "packdiag"
version = "0.1.0"
edition = "2021"
publish = false

[dependencies]
imagesize = "*"
csv = "1"
walkdir = "2"
ansi_term = "0.12"
clap = { version = "4", features = ["derive"] }
clio = { version = "*", features = ["clap-parse"] }
