[package]
name = "lily"
version = "0.1.0"
edition = "2021"
publish = false

[dependencies]
anyhow = "1"
bumpalo = "3"
rustc-hash = "*"
smol_str = "*"
thiserror = "*"
unicode_categories = "0.1"
