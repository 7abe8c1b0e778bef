[package]
name = "gameoflife"
version = "0.1.0"
edition = "2021"
publish = false

[dependencies]
ndarray = "=0.15.6"
ndarray-ndimage = "=0.4.0"
fftconvolve = "=0.1.1"
clap = { version = "=4.6.7", features = ["derive"] }
exitcode = "=1.1.2"
gif = "=0.12.0"
indicatif = "=0.18.6"
inquire = "=0.9.4"
plotters = { version = "=0.3.7", default-features = false, features = ["bitmap_backend", "bitmap_gif"] }
rand = "=0.8.8"
termion = "=4.0.6"
