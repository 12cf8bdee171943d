[package]
name = "nx_decrypt"
version = "0.1.0"
edition = "2021"
publish = false

[dependencies]
aes = "0.8"
cbc = "0.1"
ctr = "0.9"
ecb = "0.1"
xts-mode = "0.5"
neon = "1"
