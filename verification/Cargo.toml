[package]
name = "directive_validation"
version = "0.1.0"
edition = "2021"
publish = false

[dependencies]
rowan = "0.15"
