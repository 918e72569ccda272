[package]
name = "dyon_core"
version = "0.1.0"
edition = "2021"
publish = false

[dependencies]
read_token = "*"
read_color = "*"
piston_meta = "*"
rand = "*"
vecmath = "*"
