[package]
name = "mandelbrot_zoom"
version = "0.1.0"
edition = "2021"
publish = false

[dependencies]
minifb = "*"
num-complex = "0.4"
rayon = "1"
