[package]
name = "lisp_bytecode_vm"
version = "0.1.0"
edition = "2021"
publish = false

[dependencies]
rand = "=0.8.8"
chrono = { version = "=0.4.45", default-features = false, features = ["alloc"] }
rayon = "1"
