[package]
name = "gnunet"
version = "0.1.0"
edition = "2021"
publish = false

[dependencies]
byteorder = "1"
num = "0.4"
gj = "*"
gjio = "*"
