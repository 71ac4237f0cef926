[package]
name = "harness"
version = "0.1.0"
edition = "2021"
publish = false

[dependencies]
rand = "0.8"
similar = "2"
owo-colors = "3"
clap = { version = "4", features = ["derive"] }
env_logger = "0.10"
log = "0.4"
glob = "0.3"
crossbeam-channel = "0.5"
signal-hook = "0.3"
thiserror = "1"
