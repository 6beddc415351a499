[package]
name = "msegen"
version = "0.1.0"
edition = "2021"
publish = false

[dependencies]
css-color-parser = "0.1"
itertools = "0.9"
termion = "1.5"
zip = { version = "0.5", default-features = false, features = ["deflate"] }
