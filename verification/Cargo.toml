[package]
name = "blog_markdown"
version = "0.1.0"
edition = "2021"
publish = false

[dependencies]
pulldown-cmark = "=0.12.2"
syntect = { version = "=5.3.0", default-features = false, features = ["default-fancy"] }
walkdir = "=2.5.0"
minify-html-onepass = "=0.18.1"
