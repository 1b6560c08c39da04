[package]
name = "passhrs"
version = "1.0.0"
edition = "2021"
publish = false

[dependencies]
anyhow = "1"
clap = { version = "4", features = ["derive"] }
copia = "*"
crossterm = "*"
dirs = "*"
env_logger = "*"
futures = "0.3"
globset = "0.4"
log = "0.4"
russh = { version = "0.62", default-features = false, features = ["flate2", "ring", "rsa"] }
russh-config = "0.58"
russh-sftp = "*"
shell-escape = "0.1"
tokio = { version = "1", features = ["full"] }
whoami = "2"
