[package]
name = "taskgraph"
version = "0.1.0"
edition = "2021"
publish = false

[dependencies]
shell-words = "1"
diff = "0.1"
serde = { version = "1", features = ["derive"] }
serde_json = "1"
clap = { version = "4", features = ["derive"] }
miette = "5"
thiserror = "1"
rustc-hash = "1"
console = "0.15"
