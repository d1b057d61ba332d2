[package]
name = "bite"
version = "0.1.0"
edition = "2021"
publish = false

[dependencies]
object = "*"
pdb = "*"
triple_accel = "*"
dirs = "*"
