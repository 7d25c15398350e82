[package]
name = "sshx"
version = "0.1.0"
edition = "2021"
publish = false

[dependencies]
chrono = "0.4"
dirs = "*"
serde = { version = "1", features = ["derive"] }
serde_json = "1"
serde_yaml = "0.9"
toml = "*"
clap = { version = "4", features = ["derive"] }
dialoguer = "*"
tabled = "*"
libc = "0.2"
