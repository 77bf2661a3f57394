[package]
name = "tarssh"
version = "0.1.0"
edition = "2021"
publish = false

[dependencies]
env_logger = "0.11"
exitcode = "1"
futures = "0.3"
futures-util = "0.3"
log = "0.4"
privdrop = "*"
retain_mut = "0.1"
rusty-sandbox = "*"
structopt = "0.3"
tokio = { version = "1", features = ["macros", "net", "rt", "signal", "time"] }

[dev-dependencies]
quickcheck = "1"
