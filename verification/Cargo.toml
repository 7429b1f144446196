[package]
name = "clucstr"
version = "1.2.0"
edition = "2021"
publish = false

[dependencies]
memchr = "2"
proc-macro2 = "1"
quote = "1"
