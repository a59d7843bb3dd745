[package]
name = "agent_device"
version = "0.1.0"
edition = "2021"
publish = false

[dependencies]
anyhow = "1"
nix = { version = "0.24", default-features = false, features = ["fs"] }
oci-spec = { version = "0.6.8", default-features = false, features = ["runtime"] }
regex = "1"
tokio = { version = "1", default-features = false, features = ["sync"] }
