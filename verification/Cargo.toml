[package]
name = "covfuzz"
version = "0.1.0"
edition = "2021"
publish = false

[dependencies]
clap = { version = "4.5", features = ["derive"] }
libafl = { version = "0.15" }
libafl_bolts = { version = "0.15" }
libafl_targets = { version = "0.15", features = ["libfuzzer", "sancov_8bit", "sancov_cmplog"] }
mimalloc = { version = "0.1", default-features = false }
