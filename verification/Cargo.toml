[package]
name = "shell"
version = "0.1.0"
edition = "2021"
publish = false

[dependencies]
nix = { version = "*", features = ["process", "signal", "fs"] }
rustyline = "*"
rustyline-derive = "*"
