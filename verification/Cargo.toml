[package]
name = "git_sync"
version = "0.1.0"
edition = "2021"
publish = false

[dependencies]
base64 = "0.22"
substring = "1"
regex = "1"
grep-regex = "0.1"
grep-searcher = "0.1"
serde_json = "1"
chrono = "0.4"
clap = { version = "4", features = ["cargo"] }
