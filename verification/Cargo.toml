[package]
name = "fixed_const_gen"
version = "0.1.0"
edition = "2021"
publish = false
