[package]
name = "voxelcore"
version = "0.1.0"
edition = "2021"
publish = false

[dependencies]
flate2 = "=1.1.10"
noise = "=0.9.0"
byteorder = "=1.5.0"
mio = { version = "=1.2.4", features = ["os-poll", "net"] }
