[package]
name = "kaolin"
version = "0.1.0"
edition = "2021"
publish = false

[dependencies]
unicode-segmentation = "*"
embedded-graphics = "*"
u8g2-fonts = "*"
