[package]
name = "tinysh"
version = "0.0.3"
edition = "2021"
publish = false

[dependencies]
ansi_term = "0.12"
linefeed = "0.6"
