[package]
name = "rs_rag"
version = "0.1.0"
edition = "2021"
publish = false

[dependencies]
futures = "*"
langchain-rust = "*"
pyo3 = "*"
serde_json = "*"
tokio = { version = "*", features = ["rt-multi-thread"] }
