pub mod adapter;
pub mod balancer;
pub mod checked;
pub mod clmm;
pub mod common;
pub mod crossing;
pub mod curve;
pub mod kyber;
pub mod pricing;
pub mod ranges;
pub mod tick_lists;
pub mod ticks;
pub mod uniswap_v2;
pub mod uniswap_v3;
pub mod uniswap_v4;
