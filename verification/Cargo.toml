[package]
name = "step_pipeline"
version = "0.1.0"
edition = "2021"
publish = false

[dependencies]
futures = "=0.3.34"
langchain-rust = "=4.6.0"
serde_json = "=1.0.151"
tokio = { version = "=1.53.2", features = ["macros", "rt-multi-thread"] }
