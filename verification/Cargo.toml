[package]
name = "paydept"
version = "0.1.0"
edition = "2021"
publish = false

[dependencies]
regex = "=1.13.1"
url = "=2.5.8"
yaml-rust = "=0.4.5"
csv = "=1.4.0"
colored = "=2.2.0"
comfy-table = "=7.2.2"
jwalk = "=0.8.1"
parking_lot = "=0.12.5"
