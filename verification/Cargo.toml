[package]
name = "ulbox360"
version = "0.1.0"
edition = "2021"
publish = false

[dependencies]
anyhow = "1"
bimap = "=0.6.3"
chrono = "=0.4.45"
ftp = "=3.0.1"
fuser = { version = "=0.14.0", default-features = false }
libc = "0.2"
rayon = "1"
tokio = { version = "1", features = ["rt-multi-thread", "time"] }
xdvdfs = "=0.8.3"
zerocopy = "0.8"
