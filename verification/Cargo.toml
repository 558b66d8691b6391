[package]
name = "minishell"
version = "0.1.0"
edition = "2021"
publish = false

[dependencies]
chrono = "*"
csv = "*"
colored = "*"
whoami = "*"
nix = { version = "*", features = ["fs", "process", "signal", "term", "user"] }
