[package]
name = "browsers_macos"
version = "0.1.0"
edition = "2021"
publish = false

[dependencies]
cocoa-foundation = "*"
core-foundation = "*"
core-services = "*"
libc = "*"
objc = "*"
tracing = "*"
