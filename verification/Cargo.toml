[package]
name = "cvmfs"
version = "0.1.0"
edition = "2021"
publish = false

[dependencies]
chrono = "0.4"
compress = "0.2"
env_logger = { version = "0.11", default-features = false }
fuse_mt = "0.6"
hex = "0.4"
libc = "0.2"
log = "0.4"
md5 = "0.7"
rand = "0.9"
reqwest = { version = "0.12", default-features = false, features = ["blocking"] }
rusqlite = { version = "*", features = ["bundled"] }
sha1 = "0.10"
thiserror = "1"
x509-certificate = "*"
