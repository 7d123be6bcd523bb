[package]
name = "incronrs"
version = "0.1.0"
edition = "2021"
publish = false

[dependencies]
clap = { version = "*", features = ["derive"] }
daemonize = "*"
futures = "*"
home = "*"
nix = { version = "*", features = ["signal"] }
notify = "*"
serde = { version = "*", features = ["derive"] }
serde_json = "*"
