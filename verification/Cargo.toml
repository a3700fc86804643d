[package]
name = "grumpkin_msm"
version = "0.1.0"
edition = "2021"
publish = false

[dependencies]
blst = "0.3"
ff = "0.13"
halo2curves = "0.6"
pasta_curves = "0.5"
rand = "0.8"
rand_chacha = "0.3"
rayon = "1"
semolina = "0.1"
serde = { version = "1", features = ["derive"] }
sppark = "0.1"
