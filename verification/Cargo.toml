[package]
name = "flash"
version = "0.1.0"
edition = "2021"
publish = false

[dependencies]
emojis = "*"
strfmt = "*"
tokio = { version = "1", features = ["rt-multi-thread", "macros"] }
futures = "0.3"
serde = { version = "1", features = ["derive"] }
serde_json = "1"
serde_yaml = "*"
toml = "*"
glob = "0.3"
clap = { version = "4", features = ["derive"] }
pulldown-cmark = "0.9"
indicatif = "*"
