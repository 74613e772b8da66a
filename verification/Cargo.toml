[package]
name = "lgrep"
version = "0.1.0"
edition = "2021"
publish = false

[dependencies]
anyhow = "1"
clap = { version = "4", features = ["derive"] }
compress_io = "*"
is-terminal = "0.4"
regex = "1"
regex-automata = "0.4"
