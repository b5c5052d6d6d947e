[package]
name = "gisele"
version = "0.1.0"
edition = "2021"
publish = false

[dependencies]
rand = "0.8"
rust-music-theory = "*"
jack = "*"
rosc = "*"
parking_lot = "*"
anyhow = "*"
