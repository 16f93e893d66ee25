[package]
name = "ldap3"
version = "0.1.0"
edition = "2021"
publish = false

[dependencies]
bytes = "0.4"
futures = "0.1"
native-tls = "0.2"
serde = "1"
tokio-core = "0.1"
tokio-io = "0.1"
tokio-proto = "0.1"
tokio-service = "0.1"
tokio-tls = "0.2"
tokio-uds = "0.1"
tokio-uds-proto = "0.1"
