[package]
name = "rksuid"
version = "0.1.0"
edition = "2021"
publish = false

[dependencies]
base-encode = "*"
chrono = "0.4"
rand = "0.8"
rand_pcg = "0.3"
strum = "*"
strum_macros = "*"
