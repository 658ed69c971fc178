[package]
name = "tuicore"
version = "0.1.0"
edition = "2021"
publish = false

[dependencies]
crossterm = "*"
image = { version = "*", default-features = false, features = ["jpeg", "png"] }
