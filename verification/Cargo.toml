[package]
name = "sim_scheduler"
version = "0.1.0"
edition = "2021"
publish = false

[dependencies]
derivative = "*"
log = "0.4"
ordered-float = "*"
petgraph = "*"
piston = "*"
serde = { version = "1", features = ["derive"] }
serde_derive = "1"
