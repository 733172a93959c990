[package]
name = "ternreader"
version = "0.1.0"
edition = "2021"
publish = false

[dependencies]
embedded-graphics = "0.8"
embedded-io = "0.6"
embedded-io-async = "0.6"
log = "0.4"
