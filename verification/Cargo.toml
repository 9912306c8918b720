[package]
name = "pretty_midi_rs"
version = "0.1.0"
edition = "2021"
publish = false

[dependencies]
arrayvec = "0.7"
midly = "0.5"
pyo3 = "0.20"
