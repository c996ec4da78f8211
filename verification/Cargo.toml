[package]
name = "api_aggregator"
version = "0.1.0"
edition = "2021"
publish = false

[dependencies]
rss = "2"
chrono = "0.4"
url = "2"
base64 = "0.13"
serde = { version = "1", features = ["derive"] }
serde_json = "1"
tide = "0.16"
surf = { version = "2", default-features = false, features = ["h1-client-no-tls"] }
async-std = { version = "1", features = ["attributes"] }
dotenv = "0.15"
femme = "2"
http-types = "2"
