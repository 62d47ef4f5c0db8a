[package]
name = "generic_merge"
version = "0.1.0"
edition = "2021"
publish = false

[dependencies]
clap = { version = "4", features = ["derive"] }
diffy = "0.3"
env_logger = "0.10"
log = "0.4"
pathfinding = "4"
tree-sitter = "0.20"
tree-sitter-java = "0.20"
uuid = { version = "1", features = ["v4"] }
