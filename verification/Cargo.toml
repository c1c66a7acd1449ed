[package]
name = "ansi_to_html"
version = "0.1.0"
edition = "2021"
publish = false

[dependencies]
memchr = "2"
regex = "1"
html5ever = "*"
clap = { version = "4", features = ["derive"] }
serde = { version = "1", features = ["derive"] }
toml = "*"
dirs-next = "2"
thiserror = "1"
logos = "0.12"
libc = "0.2"
