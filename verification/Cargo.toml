[package]
name = "local_crate"
version = "0.1.0"
edition = "2021"
publish = false

[dependencies]
walkdir = "2"
log = "0.4"
failure = "0.1"
