[package]
name = "cggmp21"
version = "0.1.0"
edition = "2021"
publish = false

[dependencies]
num-bigint = "=0.4.8"
num-traits = "=0.2.19"
num-integer = "=0.1.47"
itertools = "=0.15.0"
generic-ec = { version = "=0.5.2", features = ["curve-secp256k1"] }
generic-ec-zkp = "=0.5.0"
sha2 = "=0.10.9"
thiserror = "=2.0.21"
