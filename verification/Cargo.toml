[package]
name = "vmc_keymap"
version = "0.1.0"
edition = "2021"
publish = false

[dependencies]
cacao = "0.2.1"
core-graphics = "0.22.3"
