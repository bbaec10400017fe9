[package]
name = "dumpb"
version = "0.1.0"
edition = "2021"
publish = false

[dependencies]
dirs = "*"
structopt = "0.3"
subprocess = "*"
