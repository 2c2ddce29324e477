[package]
name = "linefilter"
version = "0.1.0"
edition = "2021"
publish = false

[dependencies]
atty = "0.2"
failure = "0.1"
