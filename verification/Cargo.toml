[package]
name = "lola_parser"
version = "0.1.0"
edition = "2021"
publish = false

[dependencies]
pest = "2"
pest_derive = "2"
lazy_static = "1"
log = "0.4"
