[package]
name = "phosphor"
version = "0.1.0"
edition = "2021"
publish = false

[dependencies]
anyhow = "*"
clap = { version = "*", features = ["derive"] }
cpal = "*"
crossterm = "*"
dirs = "*"
git2 = { version = "*", default-features = false }
image = { version = "*", default-features = false, features = ["png", "jpeg"] }
ratatui = "*"
serde = { version = "*", features = ["derive"] }
shellexpand = "*"
tokio = { version = "*", features = ["rt-multi-thread", "macros", "sync", "time"] }
toml = "*"
ureq = { version = "2", features = ["json"] }
urlencoding = "*"
