[package]
name = "rust_snake"
version = "0.1.0"
edition = "2021"

[dependencies]
rand = "0.8"
crossterm = "0.26"
spin_sleep = "1"
console = "0.15"
