[package]
name = "product_crawler"
version = "0.1.0"
edition = "2021"
publish = false

[dependencies]
regex = "1"
url = "2"
serde = { version = "1", features = ["derive"] }
serde_json = "1"
thiserror = "2"
dotenvy = "0.15"
reqwest = { version = "0.12", default-features = false }
spider = { version = "*", default-features = false }
llm = { version = "1", default-features = false, features = ["google"] }
tokio = { version = "1", features = ["macros", "rt-multi-thread", "sync"] }
