[package]
name = "contract_abi"
version = "0.1.0"
edition = "2021"
publish = false

[dependencies]
ed25519-dalek = "=1.0.1"
hex = "=0.4.3"
num-bigint = "=0.4.8"
pyo3 = { version = "0.19", features = ["abi3-py37", "extension-module", "num-bigint"] }
