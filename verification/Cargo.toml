[package]
name = "tailspin"
version = "0.1.0"
edition = "2021"
publish = false

[dependencies]
aho-corasick = "1"
anyhow = "1"
clap = { version = "4", features = ["derive", "env"] }
clap_complete = "4"
memchr = "2"
miette = "7"
nu-ansi-term = "0.50"
regex = "1"
serde = { version = "1", features = ["derive"] }
serde_json = "1"
shell-words = "1"
shellexpand = "3"
thiserror = "2"
toml = "0.8"
winsplit = "0.1"
