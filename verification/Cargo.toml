[package]
name = "synth_sequencer"
version = "0.1.0"
edition = "2021"
publish = false

[dependencies]
serde = { version = "1", features = ["derive"] }
thiserror = "2"
fastrand = "2"
arc-swap = "1"
parking_lot = "0.12"
