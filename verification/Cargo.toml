[package]
name = "ecs"
version = "0.1.0"
edition = "2021"
publish = false

[dependencies]
crossbeam-queue = "0.3"
fxhash = "0.2"
num_cpus = "1"
