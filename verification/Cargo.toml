[package]
name = "xml_oxide"
version = "0.3.0"
edition = "2021"
publish = false

[dependencies]
thiserror = "1"
indextree = "*"
itertools = "*"
char-iter = "*"
nom = "7"
