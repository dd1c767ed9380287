[package]
name = "package_backends"
version = "0.1.0"
edition = "2021"
publish = false

[dependencies]
appstream = "*"
log = "0.4"
