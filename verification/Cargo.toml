[package]
name = "portdetective"
version = "0.1.0"
edition = "2021"
publish = false

[dependencies]
netstat2 = "*"
sysinfo = "*"
nix = { version = "*", features = ["signal"] }
procfs = "*"
clap = { version = "*", features = ["derive"] }
owo-colors = "*"
serde = { version = "*", features = ["derive"] }
serde_json = "*"
chrono = "*"
