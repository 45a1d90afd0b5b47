[package]
name = "screen_stream"
version = "0.1.0"
edition = "2021"
publish = false

[dependencies]
chrono = "0.4"
lazy_static = "1"
md5 = "0.7"
png = "0.16"
rayon = "1"
regex = "1"
screenshot-rs = "*"
xdotool = "*"
