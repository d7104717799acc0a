[package]
name = "crytrade"
version = "0.1.0"
edition = "2021"
publish = false

[dependencies]
serde_json = { version = "1", features = ["arbitrary_precision"] }
serde = { version = "1", features = ["derive"] }
async-trait = "0.1"
reqwest = "0.11"
futures = "0.3"
tokio = { version = "1", features = ["macros", "rt-multi-thread"] }
clap = "2"
diesel = { version = "1.4", features = ["postgres"] }
dotenv = "0.15"
log = "0.4"
simple_logger = "1"
