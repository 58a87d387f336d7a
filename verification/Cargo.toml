[package]
name = "whir_lookup"
version = "0.1.0"
edition = "2021"
publish = false

[dependencies]
num-bigint = "=0.4.8"
p3-field = "=0.5.4"
p3-koala-bear = "=0.5.4"
p3-util = "=0.5.4"
tracing = "=0.1.44"
tracing-chrome = "=0.7.2"
tracing-forest = "=0.3.1"
tracing-subscriber = { version = "=0.3.23", features = ["env-filter"] }

[dev-dependencies]
p3-symmetric = "=0.5.4"
