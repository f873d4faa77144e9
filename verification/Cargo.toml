[package]
name = "nio_blockchain"
version = "0.1.0"
edition = "2021"
publish = false

[dependencies]
sha2 = "0.10"
secp256k1 = "0.29"
getrandom = "0.2"
argon2 = "0.5"
base64 = "0.22"
chacha20poly1305 = "0.10"
rpassword = "7"
