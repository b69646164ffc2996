[package]
name = "flatkvm_qemu"
version = "0.1.0"
edition = "2021"
publish = false

[dependencies]
qapi = { version = "*", features = ["qmp"] }
shlex = "*"
x11-clipboard = "*"
