[package]
name = "fds_tbx"
version = "0.1.0"
edition = "2021"
publish = false

[dependencies]
byteorder = "1"
csv = "1"
uom = { version = "0.36", default-features = false, features = ["f32", "si", "std"] }
plotters = { version = "0.3", default-features = false }
