[package]
name = "dexlib"
version = "0.1.0"
edition = "2021"
publish = false

[dependencies]
adler32 = "*"
cesu8 = "*"
