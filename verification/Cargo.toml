[package]
name = "masstin"
version = "0.1.0"
edition = "2021"
publish = false

[dependencies]
zip = "*"
clap = { version = "*", features = ["derive"] }
evtx = "*"
quick-xml = { version = "*", features = ["serialize"] }
serde = { version = "*", features = ["derive"] }
serde_json = "*"
flate2 = "*"
walkdir = "*"
csv = "*"
rpassword = "*"
tokio = { version = "*", features = ["macros", "rt-multi-thread", "time"] }
reqwest = { version = "*", features = ["json"] }
neo4rs = "*"
