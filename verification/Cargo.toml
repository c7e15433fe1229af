[package]
name = "emblem"
version = "0.1.0"
edition = "2021"
publish = false

[dependencies]
regex = "1"
uniquote = "3"
supports-color = "2"
clap = { version = "4", features = ["derive", "env"] }
annotate-snippets = "0.9"
parking_lot = "0.12"
git2 = "0.18"
mlua = { version = "0.9", features = ["lua54", "vendored"] }
