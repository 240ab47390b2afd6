[package]
name = "engiffen"
version = "0.8.1"
edition = "2021"
publish = false

[dependencies]
color_quant = "=1.1.0"
fnv = "=1.0.7"
getopts = "=0.2.24"
gif = "=0.13.3"
glob = "=0.3.4"
image = { version = "=0.24.9", default-features = false, features = ["bmp", "gif", "jpeg", "png", "tga"] }
lab = "=0.11.0"
rand = "=0.4.6"
rayon = "=1.12.0"
