[package]
name = "editbuf"
version = "0.1.0"
edition = "2021"
publish = false

[dependencies]
getch-rs = "*"
nix = { version = "*", features = ["poll"] }
ratatui = "*"
