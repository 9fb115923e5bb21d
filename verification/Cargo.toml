[package]
name = "generation"
version = "0.1.0"
edition = "2021"
publish = false

[dependencies]
# geng 0.8.0 derives clap::Parser in its own sources and does not ask for the
# feature that holds the derive; it is switched on here so that geng builds.
clap = { version = "=3.2.25", features = ["derive"] }
geng = { version = "=0.8.0", default-features = false }
noise = { version = "=0.9.0", default-features = false }
ugli = { version = "=0.8.0", default-features = false }
