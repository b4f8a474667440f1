[package]
name = "rust_raytracer"
version = "0.1.0"
edition = "2021"
publish = false

[dependencies]
indicatif = "0.17"
rand = "0.9"
rand_distr = "0.5"
rayon = "1"
