[package]
name = "tower-gcra"
version = "0.1.0"
edition = "2021"
publish = false

[dependencies]
dashmap = "*"
either = "1"
governor = { version = "*", features = ["dashmap", "std", "quanta"] }
pin-project-lite = "0.2"
tokio = { version = "1", features = ["time", "rt"] }
tower = { version = "*", features = ["util"] }

[dev-dependencies]
futures = "0.3"
itertools = "*"
