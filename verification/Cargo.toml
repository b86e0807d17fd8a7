[package]
name = "file_deduplication"
version = "0.1.0"
edition = "2021"
publish = false

[dependencies]
anyhow = "1"
blake3 = { version = "1", features = ["pure"] }
clap = { version = "4", features = ["derive"] }
console = "0.15"
dialoguer = "0.11"
humansize = "2"
indicatif = "0.17"
pathdiff = "0.2"
rayon = "1"
walkdir = "2"
