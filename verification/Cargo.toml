[package]
name = "sbsampling"
version = "0.1.0"
edition = "2021"
publish = false

[dependencies]
extendr-api = "0.8"
geo = "*"
geo-traits = "*"
wkb = "*"
