[package]
name = "gpui_style"
version = "0.1.0"
edition = "2021"
publish = false

[dependencies]
smallvec = "=1.16.4"
taffy = "=0.4.4"
