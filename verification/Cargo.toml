[package]
name = "bz2_fastdl"
version = "0.1.0"
edition = "2021"
publish = false

[dependencies]
bzip2 = "*"
rayon = "*"
structopt = "*"
walkdir = "*"
