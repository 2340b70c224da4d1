[package]
name = "fat_decode"
version = "0.1.0"
edition = "2021"
publish = false

[dependencies]
argh = "0.1"
