[package]
name = "hexcell"
version = "0.1.0"
edition = "2021"
publish = false

[dependencies]
rand = "0.3"
itertools = "0.6"
num_cpus = "1"
crossbeam = "0.2"
noise = "0.3"
