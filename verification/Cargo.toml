[package]
name = "md_builder"
version = "0.1.0"
edition = "2021"
publish = false

[dependencies]
hayagriva = "0.5"
pulldown-cmark = "0.10"
syntect = { version = "5", default-features = false, features = ["default-fancy"] }
html-escape = "0.2"
reqwest = { version = "0.11", default-features = false, features = ["blocking", "rustls-tls"] }
serde = { version = "1", features = ["derive"] }
serde_json = "1"
serde_yaml = "0.9"
clap = { version = "4", features = ["derive"] }
rayon = "1"
walkdir = "2"
anyhow = "1"
dotenvy = "0.15"
image = "0.24"
indicatif = "0.17"
