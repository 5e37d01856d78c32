[package]
name = "wsvpn"
version = "0.1.0"
edition = "2021"
publish = false

[dependencies]
clap = "2"
etherparse = "*"
ipnetwork = { version = "*", default-features = false }
log = "0.4"
pretty_env_logger = "*"
tun-tap-mac = "*"
ws = "0.9"
