[package]
name = "fsmap"
version = "0.1.0"
edition = "2021"
publish = false

[dependencies]
regex = "*"
tz-rs = "*"
libc = "*"
pico-args = "*"
rustyline = "*"
