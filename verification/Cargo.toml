[package]
name = "network_hypervisor"
version = "0.1.0"
edition = "2021"
publish = false

[dependencies]
aes = "0.8"
ghash = "0.5"
salsa20 = "0.10"
poly1305 = "0.8"
sha2 = "0.10"
hmac = "0.12"
getrandom = "0.2"
