[package]
name = "blitz_layout"
version = "0.1.0"
edition = "2021"
publish = false

[dependencies]
taffy = "=0.9.2"
stylo = "=0.8.0"
stylo_taffy = "=0.2.0"
anyrender = "=0.14.0"
atomic_refcell = "=0.1.14"
peniko = "=0.6.1"
