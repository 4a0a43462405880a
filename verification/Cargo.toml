[package]
name = "inturn"
version = "0.1.0"
edition = "2021"
publish = false

[dependencies]
boxcar = "*"
bumpalo = "*"
dashmap = "*"
hashbrown = "*"
papaya = "*"
thread_local = "*"
