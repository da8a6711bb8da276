[package]
name = "md5sum_uring"
version = "0.1.0"
edition = "2021"
publish = false

[dependencies]
anyhow = "1"
env_logger = "*"
io-uring = "*"
libc = "0.2"
log = "0.4"
md-5 = "*"
memmap2 = "*"
structopt = "0.3"
