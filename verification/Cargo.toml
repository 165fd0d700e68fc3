[package]
name = "security_framework"
version = "0.1.0"
edition = "2021"
publish = false

[dependencies]
security-framework-sys = "*"
core-foundation = "*"
core-foundation-sys = "*"
libc = "*"
