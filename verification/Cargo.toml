[package]
name = "physics"
version = "0.1.0"
edition = "2021"
publish = false

[dependencies]
rand = "*"
flo_canvas = "*"
flo_draw = "*"
futures = "*"
