[package]
name = "blog_core"
version = "0.1.0"
edition = "2021"

[dependencies]
pulldown-cmark = "*"
serde_yaml = "*"
