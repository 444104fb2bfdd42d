[package]
name = "enrichment_table"
version = "0.1.0"
edition = "2021"
publish = false

[dependencies]
hash_hasher = "2"
seahash = "4"
