[package]
name = "desx"
version = "0.1.0"
edition = "2021"
publish = false

[dependencies]
freedesktop-desktop-entry = "*"
freedesktop-icons = "*"
regex = "1"

[dev-dependencies]
tempfile = "3"
