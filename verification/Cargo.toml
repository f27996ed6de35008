[package]
name = "orbital_surface"
version = "0.1.0"
edition = "2021"
publish = false

[dependencies]
raw-window-handle = "0.5"
redox_syscall = "*"
