[package]
name = "llm_scratch"
version = "0.1.0"
edition = "2021"
publish = false

[dependencies]
candle-core = "0.9"
candle-nn = "0.9"
rand = "0.9"
tokenizers = { version = "0.21", features = ["http"] }
tokio = { version = "1", features = ["macros", "rt-multi-thread", "fs"] }
