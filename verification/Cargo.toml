[package]
name = "todo_framework"
version = "0.1.0"
edition = "2021"
publish = false

[dependencies]
hyper = "0.11"
futures = "0.1"
itertools = "0.7"
mime = "0.3"
serde = { version = "1", features = ["derive"] }
serde_json = "1"
error-chain = "0.11"
dotenv = "0.10"
r2d2 = "0.7"
r2d2-diesel = "0.16"
diesel = { version = "0.16", features = ["postgres"] }
diesel_codegen = { version = "0.16", features = ["postgres"] }
