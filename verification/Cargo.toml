[package]
name = "liveseq"
version = "0.1.0"
edition = "2021"
publish = false

[dependencies]
adi_clock = "=0.3.0"
colored = "=3.1.1"
midir = "=0.11.1"
rustyline = { version = "=19.0.0", features = ["derive"] }
