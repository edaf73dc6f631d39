[package]
name = "show_files"
version = "0.1.0"
edition = "2021"
publish = false

[dependencies]
glob = "0.3"
clap = "3"
atty = "0.2"
terminal_size = "*"
