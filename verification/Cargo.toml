[package]
name = "hopfield"
version = "0.1.0"
edition = "2021"
publish = false

[dependencies]
crossbeam = "0.8"
nalgebra = "0.32"
rand = "0.8"
rand_distr = "0.4"
