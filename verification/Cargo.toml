[package]
name = "dbus-bytestream"
version = "0.1.0"
edition = "2021"
publish = false

[dependencies]
dbus-serialize = "*"
libc = "*"
rustc-serialize = "*"
unix_socket = "*"
