[package]
name = "atom_macho"
version = "0.1.0"
edition = "2021"
publish = false

[dependencies]
byteorder = "1"
clap = { version = "3", features = ["derive"] }
