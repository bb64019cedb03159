[package]
name = "ic_file_uploader"
version = "0.1.0"
edition = "2021"
publish = false

[dependencies]
candid = "=0.10.37"
clap = { version = "=4.6.7", features = ["derive"] }
tempfile = "=3.27.0"
ic-cdk = "=0.20.3"
ic-stable-structures = "=0.7.2"
