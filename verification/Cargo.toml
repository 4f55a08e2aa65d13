[package]
name = "cftool"
version = "0.1.0"
edition = "2021"
publish = false

[dependencies]
clap = { version = "*", features = ["derive"] }
console = "*"
env_logger = "*"
itertools = "*"
log = "*"
owo-colors = "*"
serde = { version = "*", features = ["derive"] }
serde_json = "*"
serde_yaml = "*"
similar = { version = "*", features = ["inline"] }
tabled = "*"
