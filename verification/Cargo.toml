[package]
name = "branchdiff"
version = "0.1.0"
edition = "2021"
publish = false

[dependencies]
anyhow = "1"
clap = { version = "4", features = ["derive"] }
notify = "6"
portable-pty = "0.8"
ratatui = "0.29"
syntect = { version = "5", default-features = false, features = ["default-fancy"] }
tui-term = "0.2"
vt100 = "0.15"
