[package]
name = "dsp_cat"
version = "0.1.0"
edition = "2021"
publish = false

[dependencies]
hdl-cat = "*"
comp-cat-rs = "*"
