[package]
name = "bve"
version = "0.1.0"
edition = "2021"
publish = false

[dependencies]
rand = "0.7"
glam = "0.24"
bytemuck = "1"
num-traits = "0.2"
chardetng = "0.1"
encoding_rs = "0.8"
