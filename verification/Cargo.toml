[package]
name = "tensor_graph"
version = "0.1.0"
edition = "2021"
publish = false

[dependencies]
slotmap = "=1.1.1"
strum = "0.28"
strum_macros = "=0.28.0"
xla = "=0.5.0"
