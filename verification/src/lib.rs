//! Deterministic, integer-only math for decentralised exchanges: Uniswap V2, V3 and V4,
//! Curve StableSwap, Balancer weighted pools and Kyber Elastic.

pub mod base;
pub mod data;
pub mod dex;
pub mod harness;
pub mod parity;
pub mod text;
pub mod u256;
