[package]
name = "irs_1094b_error_parser"
version = "0.1.0"
edition = "2021"
publish = false

[dependencies]
quick-xml = "=0.31.0"
csv = "=1.4.0"
