[package]
name = "bunnylol"
version = "0.1.0"
edition = "2021"
publish = false

[dependencies]
percent-encoding = "=2.3.2"
rocket = { version = "=0.5.2", features = ["json"] }
rocket_dyn_templates = { version = "0.2", features = ["handlebars"] }
serde = { version = "=1.0.229", features = ["derive"] }
serde_json = "=1.0.154"
