[package]
name = "lightsaber"
version = "0.1.0"
edition = "2021"
publish = false

[dependencies]
bit_field = "=0.10.3"
font8x8 = "=0.3.1"
log = "=0.4.34"
spin = "=0.9.9"
uefi = "=0.41.0"
x86_64 = { version = "=0.15.5", default-features = false, features = ["instructions"] }
xmas-elf = "=0.10.0"
