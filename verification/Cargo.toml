[package]
name = "sketchover"
version = "0.1.0"
edition = "2021"
publish = false

[dependencies]
winit = "0.30"
softbuffer = "0.4"
global-hotkey = "0.6"
mouse_position = "0.1"
