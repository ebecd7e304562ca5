[package]
name = "atomic_sync"
version = "0.1.0"
edition = "2021"
publish = false

[dependencies]
abs_sync = "=0.1.0"
atomex = "=0.1.0"
funty = "2.0.0"
pin-project = "1"
