[package]
name = "glyph-cell"
version = "0.1.0"
edition = "2021"
publish = false

[dependencies]
fontdue = "*"
embedded-graphics = "*"
embedded-graphics-core = "*"
syn = { version = "2", features = ["full"] }
quote = "*"
proc-macro2 = "*"
