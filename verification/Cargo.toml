[package]
name = "deadlock_detector_benchmark"
version = "0.1.0"
edition = "2021"
publish = false

[dependencies]
rand = "=0.10.3"
chacha20 = { version = "=0.10.2", features = ["rng"] }
deloxide = { version = "=1.1.0", features = ["stress-test", "lock-order-graph"] }
no_deadlocks = "=1.3.2"
parking_lot = { version = "=0.12.5", features = ["deadlock_detection"] }
