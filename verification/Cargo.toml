[package]
name = "local_stack_focus"
version = "0.1.0"
edition = "2021"
publish = false

[dependencies]
tar = "0.4"
async-trait = "0.1"
bollard = "*"
futures-util = "0.3"
serde = { version = "1", features = ["derive"] }
tokio = { version = "1", features = ["macros", "rt-multi-thread"] }
toml = "*"
