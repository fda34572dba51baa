[package]
name = "nixsec"
version = "0.1.0"
edition = "2021"
publish = false

[dependencies]
nixel = "=4.1.0"
argh = "=0.1.19"
