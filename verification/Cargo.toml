[package]
name = "margo"
version = "0.1.0"
edition = "2021"
publish = false

[dependencies]
argh = "*"
flate2 = "*"
sha2 = "*"
tar = "*"
toml = "*"
url = "*"
walkdir = "*"

[dev-dependencies]
hex = "*"
