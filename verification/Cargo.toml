[package]
name = "pes"
version = "0.1.0"
edition = "2021"
publish = false

[dependencies]
pubgrub = "0.2"
serde = { version = "1", features = ["derive"] }
serde_yaml = "0.8"
toml = "0.5"
structopt = "0.3"
libloading = "0.7"
log = "0.4"
pretty_env_logger = "0.4"
prettytable-rs = "0.10"
nix = "0.23"
users = "0.11"
dirs = "3"
itertools = "0.10"
anyhow = "1"
indexmap = "1"
thiserror = "1"
