[package]
name = "has_component"
version = "0.1.0"
edition = "2021"
publish = false

[dependencies]
stringcase = "*"
syn = "*"
quote = "*"
proc-macro2 = "*"
