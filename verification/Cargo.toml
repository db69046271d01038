[package]
name = "waveform_display"
version = "0.1.0"
edition = "2021"
publish = false

[dependencies]
rustfft = "=6.4.1"
