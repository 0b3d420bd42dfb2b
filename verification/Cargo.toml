[package]
name = "xmldiff"
version = "0.1.0"
edition = "2021"
publish = false

[dependencies]
clap = "=2.34.0"
colored = "=1.9.4"
xmltree = "=0.9.0"
