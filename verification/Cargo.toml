[package]
name = "csv_to_json"
version = "0.1.0"
edition = "2021"
publish = false

[dependencies]
clap = { version = "*", features = ["derive"] }
color-eyre = "*"
glob = "*"
rayon = "*"
env_logger = "*"
log = "*"

[dev-dependencies]
serde_json = "*"
csv = "*"
wildmatch = "*"
