[package]
name = "scala_wrapper"
version = "0.1.0"
edition = "2021"
publish = false

[dependencies]
pulldown-cmark = "*"
pulldown-cmark-to-cmark = "*"
