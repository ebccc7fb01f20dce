[package]
name = "w-utils"
version = "0.3.0"
edition = "2021"
publish = false

[dependencies]
anyhow = "1"
clap = { version = "4", features = ["derive"] }
clap_complete = "4"
clap_mangen = "0.2"
colored = "2"
ctrlc = "3"
filetime = "0.2"
fs2 = "0.4"
globset = "0.4"
humansize = "2"
indicatif = "0.17"
libc = "0.2"
walkdir = "2"
xxhash-rust = { version = "0.8", features = ["xxh3"] }
