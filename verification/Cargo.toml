[package]
name = "reference_checker"
version = "0.1.0"
edition = "2021"
publish = false

[dependencies]
clap = { version = "4", features = ["derive"] }
env_logger = "0.11"
glob = "0.3"
log = "0.4"
rayon = "1"
shellexpand = "3"
zip = { version = "*", default-features = false, features = ["deflate"] }
