[package]
name = "midiplay"
version = "0.1.0"
edition = "2021"
publish = false

[dependencies]
clap = { version = "4", features = ["cargo"] }
derive_more = { version = "2", features = ["display"] }
