[package]
name = "four_win_three_lose"
version = "0.1.0"
edition = "2021"
publish = false

[dependencies]
itertools = "=0.12.1"
log = "=0.4.34"
clap = { version = "=4.6.7", features = ["derive"] }
clap_derive = "=4.6.7"
eframe = { version = "0.24", default-features = false, features = ["glow", "x11"] }
