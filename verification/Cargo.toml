[package]
name = "stark_vrf"
version = "0.1.0"
edition = "2021"
publish = false

[dependencies]
starknet-crypto = "0.6"
starknet-ff = "0.3"
starknet-curve = "0.4"
num-bigint = "0.4"
num-traits = "0.2"
ark-ff = "0.4"
ark-ec = "0.4"
ark-serialize = "0.4"
