[package]
name = "mwalib"
version = "0.1.0"
edition = "2021"
publish = false

[dependencies]
anyhow = "=1.0.104"
chrono = "=0.4.45"
fitsio = { version = "=0.21.10", features = ["fitsio-src"] }
structopt = "=0.3.26"
thiserror = "=1.0.69"
