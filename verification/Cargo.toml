[package]
name = "nix-doc"
version = "0.1.0"
edition = "2021"
publish = false

[dependencies]
colorful = "0.2"
regex = "1"
rnix = "0.8"
walkdir = "2"
