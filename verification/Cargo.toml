[package]
name = "rclone_ignore"
version = "0.1.0"
edition = "2021"
publish = false

[dependencies]
globset = "0.4"
ignore = "0.4"
walkdir = "2"
notify = "4"
clap = "2"
log = "0.4"
env_logger = "*"
which = "*"
rayon = "1"
crossbeam = "0.8"
num_cpus = "1"
lazy_static = "1"
serde = { version = "1", features = ["derive"] }
serde_json = "1"
ws = "0.9"
