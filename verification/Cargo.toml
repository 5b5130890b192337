[package]
name = "esp8266"
version = "0.1.0"
edition = "2021"
publish = false

[dependencies]
at-commands = "*"
