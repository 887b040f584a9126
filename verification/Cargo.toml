[package]
name = "timetracker"
version = "0.1.0"
edition = "2021"
publish = false

[dependencies]
chrono = "0.4"
config = { version = "0.11", default-features = false, features = ["toml"] }
dirs = "*"
if_chain = "1"
itertools = "0.10"
lazy_static = "1"
regex = "1"
serde = { version = "1", features = ["derive"] }
serde_json = "1"
structopt = "0.3"
text_io = "0.1"
