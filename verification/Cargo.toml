[package]
name = "mdfrier"
version = "0.1.0"
edition = "2021"
publish = false

[dependencies]
tree-sitter = "=0.27.1"
tree-sitter-md = "=0.5.4"
textwrap = "=0.16.4"
unicode-width = "=0.2.3"
crossterm = "=0.29.0"
regex = "1"
