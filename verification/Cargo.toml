[package]
name = "circ_eval"
version = "0.1.0"
edition = "2021"
publish = false

[dependencies]
fxhash = "=0.2.1"
midnight-circuits = "=7.3.0"
midnight-curves = "=0.3.1"
rand = "=0.8.8"
rand_chacha = "=0.3.1"
sha2 = "=0.10.9"
