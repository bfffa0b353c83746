[package]
name = "neotron_sdk"
version = "0.1.0"
edition = "2021"
publish = false

[dependencies]
neotron-api = "*"
neotron-ffi = "*"
crossterm = "*"
