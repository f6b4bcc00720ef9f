[package]
name = "spectra"
version = "0.1.0"
edition = "2021"
publish = false

[dependencies]
crossterm = "*"
glob = "*"
pretty_assertions = "*"
simple-markdown-parser = "*"
simple-yaml-parser = "*"
