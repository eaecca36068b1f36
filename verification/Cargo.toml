[package]
name = "rpeg"
version = "0.1.0"
edition = "2021"
publish = false

[dependencies]
csc411_arith = "=0.1.0"
csc411_image = "0.5.2"
