[package]
name = "fishhook"
version = "0.1.0"
edition = "2021"
publish = false

[dependencies]
goblin = "=0.10.7"
mach2 = "0.4.3"
