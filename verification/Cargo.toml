[package]
name = "output_layout"
version = "0.1.0"
edition = "2021"
publish = false

[dependencies]
petgraph = "*"
parry2d = "*"
log = "*"
keyboard-types = "*"
raw-window-handle = "*"
bitflags = "*"
