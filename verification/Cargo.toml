[package]
name = "plugin_resource"
version = "0.1.0"
edition = "2021"
publish = false

[dependencies]
http = "1"
itertools = "*"
futures-core = "0.3"
futures-util = "0.3"
tonic = "*"
tracing = "0.1"
thiserror = "*"
arrow2 = "*"
