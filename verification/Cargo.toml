[package]
name = "mount_deny"
version = "0.1.0"
edition = "2021"
publish = false

[dependencies]
bstr = "1"
ignore = "0.4"
