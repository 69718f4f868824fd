[package]
name = "lopa"
version = "0.1.0"
edition = "2021"
publish = false

[dependencies]
syntree = "=0.19.0"
clap = "=4.6.7"
