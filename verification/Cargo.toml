[package]
name = "nekos_mem"
version = "0.1.0"
edition = "2021"
publish = false

[dependencies]
spin = "=0.12.3"
limine = "=0.5.0"
colorz = "=1.1.4"
