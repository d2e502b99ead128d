[package]
name = "vault-sync"
version = "0.6.0"
edition = "2021"
publish = false

[dependencies]
anyhow = "1"
clap = { version = "4", features = ["derive"] }
console = "0.16"
flate2 = "1"
indexmap = { version = "2", features = ["serde"] }
minijinja = "2"
owo-colors = "4"
rayon = "1"
self-replace = "1"
serde = { version = "1", features = ["derive"] }
serde_json = "1"
tar = "0.4"
toml = "0.9"
ureq = { version = "3", features = ["json"] }
