[package]
name = "doors"
version = "0.1.0"
edition = "2021"
publish = false

[dependencies]
object = "=0.40.0"
clap = { version = "=4.6.7", features = ["derive"] }
serde = { version = "=1.0.229", features = ["derive"] }
toml = "=1.1.8"
regex = "=1.13.1"
rustc-demangle = "=0.1.28"
hadris-iso = "=2.5.0"
flate2 = "=1.1.10"
tar = "=0.4.46"
simple_logger = "=5.2.0"
log = "=0.4.35"
stack-sizes = "*"
