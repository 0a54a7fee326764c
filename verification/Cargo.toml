[package]
name = "zinoma"
version = "0.5.1"
edition = "2021"
publish = false

[dependencies]
regex = "1"
anyhow = "1"
async-std = { version = "1", features = ["unstable"] }
futures = "0.3"
serde = { version = "1", features = ["derive"] }
serde_yaml = "0.9"
bincode = "1"
clap = "4"
notify = "6"
walkdir = "2"
seahash = "4"
log = "0.4"
stderrlog = "0.6"
async-process = "2"
async-ctrlc = "1"
itertools = "0.13"
