[package]
name = "alpm"
version = "0.1.0"
edition = "2021"
publish = false

[dependencies]
libflate = "=2.3.2"
tar = "=0.4.46"
mtree = "=0.5.0"
lockfile = "=0.4.0"
uname = "=0.1.1"
url = "*"
fs2 = "*"
