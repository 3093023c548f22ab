[package]
name = "balancebeam"
version = "0.1.0"
edition = "2021"
publish = false

[dependencies]
rand = "*"
regex = "*"
tokio = { version = "*", features = ["full"] }
http = "*"
clap = { version = "*", features = ["derive"] }
log = "*"
pretty_env_logger = "*"
num_cpus = "*"
crossbeam-channel = "*"
parity-wordlist = "*"
