[package]
name = "tpt_av_asset"
version = "0.1.0"
edition = "2021"
publish = false

[dependencies]
redb = "2"
image = { version = "0.25", default-features = false, features = ["jpeg", "png"] }
log = "0.4"
clap = { version = "4", features = ["derive"] }
