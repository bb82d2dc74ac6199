[package]
name = "vacore"
version = "0.1.0"
edition = "2021"

[dependencies]
rustc_apfloat = "*"
annotate-snippets = "*"

[dev-dependencies]
float-cmp = "=0.10.0"
