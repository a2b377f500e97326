[package]
name = "blues"
version = "0.1.0"
edition = "2021"
publish = false

[dependencies]
zbus = "3"
futures-util = "0.3"
log = "0.4"
