[package]
name = "form_schema"
version = "0.1.0"
edition = "2021"
publish = false

[dependencies]
scraper = "*"
heck = "*"
syn = "*"
ego-tree = "*"
