[package]
name = "dirlist"
version = "0.1.0"
edition = "2021"
publish = false

[dependencies]
clap = "2"
size = "0.1"
term_size = "0.3"
time = "0.1"
users = "0.9"
