[package]
name = "flagseed"
version = "0.1.0"
edition = "2021"
publish = false

[dependencies]
rand = "*"
ulid = "*"
url = "*"
reqwest = { version = "*", default-features = false }
tokio = { version = "*", features = ["rt-multi-thread", "macros"] }
clap = { version = "*", features = ["derive", "env"] }
clap-markdown = "*"
