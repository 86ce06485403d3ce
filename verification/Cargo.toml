[package]
name = "local_git_ops"
version = "0.1.0"
edition = "2021"
publish = false

[dependencies]
regex = "1"
chrono = "0.4"
anyhow = "1"
clap = { version = "4", features = ["derive"] }
colored = "*"
comfy-table = "*"
git2 = { version = "*", default-features = false }
rayon = "1"
