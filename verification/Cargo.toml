[package]
name = "hash_checker"
version = "0.1.0"
edition = "2021"

[dependencies]
sha2 = "0.10"
