[package]
name = "serde_rusoto_dynamodb"
version = "0.1.0"
edition = "2021"
publish = false

[dependencies]
itoa = "1"
ryu = "1"
serde = "1"
rusoto_dynamodb = "0.48"
