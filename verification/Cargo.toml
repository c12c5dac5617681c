[package]
name = "aifs"
version = "0.1.0"
edition = "2021"
publish = false

[dependencies]
file-lock = "*"
libc = "*"
nix = { version = "*", features = ["user", "fs"] }
xattr = "*"
