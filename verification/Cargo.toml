[package]
name = "enclone_vars"
version = "0.1.0"
edition = "2021"
publish = false

[dependencies]
regex = "=1.13.1"
string_utils = "=0.1.4"
tables = "*"
