[package]
name = "xv6sh"
version = "0.1.0"
edition = "2021"
publish = false

[dependencies]
getopts = "0.2"
os_pipe = "1"
