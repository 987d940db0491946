[package]
name = "keyfall"
version = "0.1.0"
edition = "2021"
publish = false

[dependencies]
ghakuf = "0.5"
midir = "0.5"
log = "0.4"
lazy_static = "1"
