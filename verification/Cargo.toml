[package]
name = "scenemesh"
version = "0.1.0"
edition = "2021"
publish = false

[dependencies]
rbx_binary = "*"
rbx_dom_weak = "*"
rbx_types = "*"
