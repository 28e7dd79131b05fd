[package]
name = "gql_gateway"
version = "0.1.0"
edition = "2021"
publish = false

[dependencies]
fastly = "*"
juniper = "*"

[dev-dependencies]
serde_json = "*"
