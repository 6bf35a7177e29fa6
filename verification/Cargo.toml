[package]
name = "rust_math_lib"
version = "0.1.0"
edition = "2021"
publish = false

[dependencies]
figlet-rs = "=0.1.5"
inquire = "=0.9.4"
meval = "=0.2.0"
tabled = "=0.22.0"
