[package]
name = "vsml_pipeline"
version = "0.1.0"
edition = "2021"
publish = false

[dependencies]
dasp = { version = "0.11", features = ["signal", "interpolate", "interpolate-sinc", "ring_buffer", "slice"] }
hound = "3.5"
image = { version = "0.25", default-features = false, features = ["png"] }
log = "0.4"
temp-dir = "0.1"
wgpu = "24"
