[package]
name = "snips_nlu_utils"
version = "0.1.0"
edition = "2021"
publish = false

[dependencies]
failure = { version = "0.1", default-features = false, features = ["std"] }
fnv = "1.0"
unicode-normalization = "0.1"
