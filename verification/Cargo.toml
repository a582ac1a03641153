[package]
name = "winfu"
version = "0.1.0"
edition = "2021"
publish = false

[dependencies]
regex = "1"
termcolor = "1"
ansi_term = "0.12"
clipboard-win = "*"
bat = { version = "*", default-features = false }
