[package]
name = "netwolf"
version = "0.1.0"
edition = "2021"
publish = false

[dependencies]
rand = "0.7"
log = "0.4"
clap = "*"
simple_logger = "*"
