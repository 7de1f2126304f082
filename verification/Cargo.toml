[package]
name = "aeon_counter"
version = "0.1.0"
edition = "2021"
publish = false

[dependencies]
ruint = "=1.20.1"
