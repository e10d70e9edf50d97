[package]
name = "l9_vm"
version = "0.1.0"
edition = "2021"
publish = false

[dependencies]
thiserror = "1"
log = "0.4"
