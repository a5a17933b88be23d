[package]
name = "nianjia"
version = "0.1.0"
edition = "2021"
publish = false

[dependencies]
atty = "0.2"
clap = "2"
dirs = "*"
serde = "1"
termcolor = "1"
toml = "0.5"
