[package]
name = "mu_rust_ex"
version = "0.1.0"
edition = "2021"
publish = false

[dependencies]
r-efi = "=7.1.0"
spin = "=0.12.3"
menu = "=0.6.1"
embedded-io = "=0.6.1"
