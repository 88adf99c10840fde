[package]
name = "esp-drivers"
version = "0.1.0"
edition = "2021"
publish = false

[dependencies]
embassy-sync = "*"
embassy-embedded-hal = "*"
embedded-hal = "1.0.0"
embedded-hal-async = "1.0.0"
enumset = "1"
portable-atomic = "1"
