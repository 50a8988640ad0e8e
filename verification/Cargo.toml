[package]
name = "ray_tracing_in_a_weekend"
version = "0.1.0"
edition = "2021"
publish = false

[dependencies]
rand = "0.8"
rand_distr = "0.4"
rand_xoshiro = "0.6"
