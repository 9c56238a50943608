[package]
name = "freedesktop_entry_parser"
version = "1.3.0"
edition = "2021"
publish = false

[dependencies]
nom = "7"
thiserror = "1"
