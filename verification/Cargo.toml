[package]
name = "brink"
version = "0.1.0"
edition = "2021"
publish = false

[dependencies]
parse_int = "*"
indextree = "*"
ariadne = "*"
anyhow = "*"
clap = "*"
log = "*"
fern = "*"
