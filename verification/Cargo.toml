[package]
name = "atom_lisp"
version = "0.1.0"
edition = "2021"
publish = false

[dependencies]
fnv = "1"
regex = "1"
rustyline = "*"
