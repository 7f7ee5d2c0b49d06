[package]
name = "hashwalk"
version = "0.1.0"
edition = "2021"
publish = false

[dependencies]
crossbeam-deque = "0.8"
digest = "0.10"
hex = "0.4"
md-5 = "0.10"
regex = "1"
sha1 = "0.10"
sha2 = "0.10"
termios = "0.3"
