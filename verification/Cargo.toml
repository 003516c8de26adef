[package]
name = "bytecode"
version = "0.1.0"
edition = "2021"
publish = false

[dependencies]
nom = "=7.1.3"
snarkvm-circuit = "*"
snarkvm-utilities = "*"
