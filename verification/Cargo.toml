[package]
name = "vf2_boot"
version = "0.1.0"
edition = "2021"
publish = false

[dependencies]
byteorder = { version = "=1.5.0", default-features = false }
gpt = "=4.1.0"
log = "=0.4.34"
