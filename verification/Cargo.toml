[package]
name = "mdterm"
version = "0.1.0"
edition = "2021"
publish = false

[dependencies]
unicode-width = "*"
url = "2"
crossterm = "*"
clap = { version = "4", features = ["derive"] }
resvg = "*"
zip = "*"
