[package]
name = "lockstep_video"
version = "0.1.0"
edition = "2021"
publish = false

[dependencies]
qoi = "=0.4.1"
uefi = { version = "=0.36.1", features = ["alloc", "logger"] }
log = "=0.4.34"
dmidecode = "=1.0.1"
embedded-graphics = "=0.8.2"
embedded-graphics-gop = "=0.4.2"
u8g2-fonts = { version = "=0.8.0", features = ["embedded_graphics_textstyle"] }
