[package]
name = "wiktionary_scanner"
version = "0.1.0"
edition = "2021"
publish = false

[dependencies]
unicode-normalization = "*"
bzip2 = "*"
clap = { version = "*", features = ["derive"] }
indicatif = "*"
serde = { version = "*", features = ["derive"] }
serde_json = "*"
serde_yaml = "*"
