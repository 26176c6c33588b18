[package]
name = "topic_tree"
version = "0.1.0"
edition = "2021"
publish = false

[dependencies]
chrono = "=0.4.45"
colored = "=2.2.0"
tokio = { version = "=1.54.1", features = ["rt-multi-thread", "macros"] }
zenoh = { version = "1", default-features = false, features = ["transport_tcp", "transport_udp"] }
