[package]
name = "usage"
version = "0.1.0"
edition = "2021"
publish = false

[dependencies]
passwd = "*"
sysinfo = "0.29"
cursive = { version = "0.20", default-features = false, features = ["crossterm-backend"] }
clap = { version = "4", features = ["derive"] }
