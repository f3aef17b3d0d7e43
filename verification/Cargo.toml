[package]
name = "id3v2"
version = "0.1.0"
edition = "2021"
publish = false

[dependencies]
symphonia-core = "=0.6.1"
