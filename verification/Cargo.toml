[package]
name = "moostar"
version = "0.1.0"
edition = "2021"

[dependencies]
unicode-segmentation = "1"
tui = "0.19"
crossterm = "0.25"
