[package]
name = "chip8_emulator"
version = "0.1.0"
edition = "2021"
publish = false

[dependencies]
rand = "*"
processing = "*"
