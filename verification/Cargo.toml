[package]
name = "git_switcher"
version = "0.1.0"
edition = "2021"
publish = false

[dependencies]
md5 = "*"
anyhow = "*"
clap = { version = "*", features = ["derive"] }
colored = "*"
dirs = "*"
inquire = "*"
