[package]
name = "third_harmonic"
version = "0.1.0"
edition = "2021"
publish = false

[dependencies]
clap = { version = "4", features = ["derive"] }
strum = { version = "*", features = ["derive"] }
ndarray = { version = "*", features = ["rayon"] }
ndarray-npy = "*"
rayon = "*"
ruviz = "*"
scirs2 = "*"
