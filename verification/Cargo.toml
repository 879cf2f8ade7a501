[package]
name = "alone"
version = "0.1.0"
edition = "2021"
publish = false

[dependencies]
Inflector = "=0.11.4"
clap = { version = "4", features = ["derive"] }
crossbeam = "0.8"
ctrlc = "3"
futures = "=0.3.34"
log = "0.4"
pretty_env_logger = "0.5"
rand = "=0.8.8"
rust-bert = { version = "=0.23.0", default-features = false }
scopeguard = "1"
serde = { version = "1", features = ["derive"] }
tch = "=0.17.0"
toml = "*"
uuid = "1"
