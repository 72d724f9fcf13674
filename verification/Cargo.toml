[package]
name = "pkgmk"
version = "0.1.0"
edition = "2021"
publish = false

[dependencies]
aho-corasick = "1"
anyhow = "1"
clap = { version = "4", features = ["derive"] }
dirs = "6"
postcard = { version = "1", features = ["use-std"] }
serde = { version = "1", features = ["derive"] }
ureq = "3"
