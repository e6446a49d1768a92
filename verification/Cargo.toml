[package]
name = "runmat_runtime"
version = "0.1.0"
edition = "2021"
publish = false

[dependencies]
runmat-builtins = "=0.5.6"
runmat-filesystem = "=0.5.6"
runmat-accelerate-api = "=0.5.6"
