[package]
name = "raster_canvas"
version = "0.1.0"
edition = "2021"
publish = false

[dependencies]
bumpalo = "3"
wasm-bindgen = "0.2"
web-sys = { version = "0.3", features = ["ImageData"] }
