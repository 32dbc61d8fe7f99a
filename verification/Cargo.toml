[package]
name = "rpte"
version = "0.1.0"
edition = "2021"
publish = false

[dependencies]
rust_decimal = { version = "1", default-features = false, features = ["std"] }
crossterm = "*"
ratatui = "*"
ratatui-plt = "*"
