[package]
name = "bms_preview"
version = "0.1.0"
edition = "2021"
publish = false

[dependencies]
audioadapter-buffers = "*"
bms-rs = "*"
clap = { version = "*", features = ["derive"] }
colored = "*"
encoding_rs = "*"
itertools = "*"
rayon = "*"
rubato = "*"
symphonia = { version = "*", features = ["all"] }
thiserror = "*"
vorbis_rs = "*"
walkdir = "*"
