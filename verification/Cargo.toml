[package]
name = "alloy"
version = "0.1.0"
edition = "2021"
publish = false

[dependencies]
rustyline = "9"
structopt = "0.3"
thiserror = "1"
