[package]
name = "rustchess"
version = "0.1.0"
edition = "2021"
publish = false

[dependencies]
backtrace = "0.3"
clap = "2"
log = "0.4"
rand = "0.6"
simplelog = "0.5"

[dev-dependencies]
galvanic-assert = "0.8"
