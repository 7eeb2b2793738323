[package]
name = "gilber"
version = "0.1.0"
edition = "2021"
publish = false

[dependencies]
bimap = "*"
git2 = { version = "*", default-features = false }
fuse = "*"
libc = "*"
time = "0.1"
