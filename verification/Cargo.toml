[package]
name = "pagemem"
version = "0.1.0"
edition = "2021"
publish = false

[dependencies]
mmap-alloc = "*"
sysconf = "*"
libc = "*"
