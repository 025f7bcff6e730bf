[package]
name = "audioadapter"
version = "0.1.0"
edition = "2021"
publish = false

[dependencies]
audio-codec-algorithms = "*"
num-traits = "0.2"
audio = "*"
audio-core = "*"
dasp_frame = "*"
ndarray = "*"
nice-plug-core = "*"
symphonia-core = "*"
