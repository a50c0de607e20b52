[package]
name = "ledcat"
version = "0.1.0"
edition = "2021"
publish = false

[dependencies]
nix = "0.10"
clap = "2"
spidev = "*"
