[package]
name = "server_poll"
version = "0.1.0"
edition = "2021"
publish = false

[dependencies]
anyhow = "1"
byteorder = "1"
regex = "1"
structopt = "0.3"
