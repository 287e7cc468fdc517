[package]
name = "distinst"
version = "0.1.0"
edition = "2021"
publish = false

[dependencies]
fern = "*"
itertools = "*"
libc = "0.2"
log = "0.4"
rayon = "*"
tempdir = "0.3"
