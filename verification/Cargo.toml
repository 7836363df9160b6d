[package]
name = "arkhash"
version = "0.1.0"
edition = "2021"
publish = false

[dependencies]
chrono = "*"
crossbeam-deque = "*"
num_cpus = "*"
