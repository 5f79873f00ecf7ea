[package]
name = "dex_math_core"
version = "0.1.0"
edition = "2021"
publish = false

[dependencies]
alloy-primitives = "=1.7.3"
uniswap_v3_math = "=0.6.2"
ethers-core = "=2.0.14"
primitive-types = "=0.12.2"
balancer-maths-rust = "=0.5.0"
curve-math = { version = "=0.1.0-alpha.2", features = ["swap"] }
serde = { version = "1", features = ["derive"] }
serde_json = "1"
thiserror = "1"
parking_lot = "0.12"
tracing = "0.1"
tokio = { version = "1", features = ["rt"] }
hydra-amm = "=0.1.3"
uniswap-v2-sdk = "=2.0.0"
uniswap-v3-sdk = "=7.0.0"
uniswap-v4-sdk = "=2.0.0"
