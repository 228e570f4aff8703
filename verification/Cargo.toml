[package]
name = "drankdozijn"
version = "0.1.0"
edition = "2021"
publish = false

[dependencies]
reqwest = { version = "*", default-features = false, features = ["json"] }
tokio = { version = "*", features = ["rt-multi-thread", "macros"] }
serde = { version = "*", features = ["derive"] }
structopt = "*"
structopt-flags = "*"
simplelog = "*"
log = "*"
colour = "*"
prettytable-rs = "*"
