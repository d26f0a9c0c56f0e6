[package]
name = "npm_clean"
version = "0.1.0"
edition = "2021"
publish = false

[dependencies]
anyhow = "*"
chrono = "*"
clap = { version = "*", features = ["derive"] }
console = "*"
dirs = "*"
fern = "*"
globset = "*"
indicatif = "*"
log = "*"
rayon = "*"
remove_dir_all = "*"
serde = { version = "*", features = ["derive"] }
serde_json = "*"
serde_yaml = "*"
