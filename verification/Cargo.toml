[package]
name = "fldtools"
version = "0.1.1"
edition = "2021"
publish = false

[dependencies]
byteorder = "1"
itertools = "0.10"
clap = "2"
