[package]
name = "no_std_async"
version = "0.1.0"
edition = "2021"
publish = false

[dependencies]
pin-list = "0.1"
pin-project = "1"
spin = "0.9"
