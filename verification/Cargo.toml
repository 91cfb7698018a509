[package]
name = "rloc"
version = "0.1.0"
edition = "2021"
publish = false

[dependencies]
ahash = "0.8"
clap = { version = "4", features = ["derive"] }
comfy-table = "7"
csv = "1"
dashmap = "6"
flate2 = "1"
ignore = "0.4"
indicatif = { version = "0.17", features = ["rayon"] }
rayon = "1"
regex = "1"
serde = { version = "1", features = ["derive"] }
serde_json = "1"
serde_yaml = "0.9"
tar = "0.4"
thiserror = "1"
zip = { version = "2", default-features = false, features = ["deflate"] }
