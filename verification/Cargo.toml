[package]
name = "libbdgt"
version = "0.1.0"
edition = "2021"
publish = false

[dependencies]
aes-gcm = "0.10"
scrypt = "0.11"
rand = "0.8"
gpgme = "*"
git2 = "*"
auth-git2 = "*"
dirs = "*"
