[package]
name = "shin"
version = "0.1.0"
edition = "2021"
publish = false

[dependencies]
ring = "=0.17.14"
ml-kem = { version = "=0.3.4", features = ["zeroize"] }
arrayvec = "=0.7.8"
stringprep = "=0.1.5"
subtle = "=2.6.1"
unicode-normalization = "=0.1.26"
unicode-properties = "=0.1.5"
zeroize = "=1.9.1"
o3 = "0.16"
