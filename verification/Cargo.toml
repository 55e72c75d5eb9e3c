[package]
name = "gxbuild"
version = "0.1.0"
edition = "2021"
publish = false

[dependencies]
crc32fast = "=1.5.4"
sha1 = "=0.10.7"
stfs = "=0.2.0"
xecrypt = "=0.4.0"
openssl = "0.10"
clap = { version = "=4.6.7", features = ["derive"] }
log = "=0.4.35"
thiserror = "=2.0.21"
anyhow = "=1.0.104"
serde = { version = "=1.0.229", features = ["derive"] }
