[package]
name = "parfum"
version = "0.1.0"
edition = "2021"
publish = false

[dependencies]
crossbeam = "0.8"
libc = "0.2"
once_cell = "1"
quote = "1"
syn = { version = "2", features = ["full", "visit-mut"] }
