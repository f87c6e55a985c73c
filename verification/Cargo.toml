[package]
name = "bsnark"
version = "0.1.0"
edition = "2021"
publish = false

[dependencies]
ff = "0.4"
rand = "0.4"
pairing = "0.14"
bellman = "0.1"
