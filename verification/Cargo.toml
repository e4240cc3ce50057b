[package]
name = "bbs_keys"
version = "0.1.0"
edition = "2021"
publish = false

[dependencies]
amcl_wrapper = "=0.3.5"
