[package]
name = "rustlab"
version = "0.1.0"
edition = "2021"
publish = false

[dependencies]
libc = "0.2"
pkcs11 = "0.5"
evdev-rs = "0.5"
