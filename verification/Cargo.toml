[package]
name = "rnamed"
version = "0.1.0"
edition = "2021"
publish = false

[dependencies]
glob = "0.3"
rayon = "1"
sha2 = "0.10"
