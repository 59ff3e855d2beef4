[package]
name = "grepr"
version = "0.1.0"
edition = "2021"
publish = false

[dependencies]
regex = "1"
clap = "4"
walkdir = "2"
