[package]
name = "maclean"
version = "0.1.0"
edition = "2021"
publish = false

[dependencies]
crossterm = "*"
pad = "*"
walkdir = "*"
whoami = "*"
