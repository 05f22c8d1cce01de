[package]
name = "asfa"
version = "0.1.0"
edition = "2021"
publish = false

[dependencies]
anyhow = "*"
atty = "*"
base64 = "0.13"
chrono = "*"
clap = { version = "*", features = ["derive"] }
console = "*"
dialoguer = "*"
expanduser = "*"
hex = "*"
humantime = "*"
indicatif = "*"
itertools = "*"
lazy_static = "*"
log = "*"
percent-encoding = "*"
regex = "*"
rpassword = "*"
sha2 = "*"
simple_logger = "*"
ssh2 = "*"
thiserror = "*"
whoami = "*"
yaml-rust = "*"
